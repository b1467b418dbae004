//! Follow-up tracking over a range of commits: which later commits mention,
//! fix or revert a given commit, directly or through a chain of such
//! references, and which of those a list of already applied commits lacks.
//!
//! The library works on plain values. Its caller walks the repository,
//! hands over each commit's text oldest first, and answers the one question
//! the library has to ask: which commit a hash stands for.
//!
//! - [`extract`] reads the mentions out of a commit's text.
//! - [`resolve`] holds what the repository found against a mention.
//! - [`ref_graph`] builds the graph and answers who references a commit.
//! - [`describe`] finds the commit that a line of free text describes.
//! - [`report`] renders the two reports.
//! - [`reach`], [`graph_laws`] and [`report_laws`] state and prove what
//!   holds of searches, graphs and reports.
//! - [`pattern`] and [`text`] are the seams to the regular expression
//!   engine and to the standard library's string functions.

pub mod commit;
pub mod describe;
pub mod extract;
pub mod graph_laws;
pub mod pattern;
pub mod reach;
pub mod ref_graph;
pub mod ref_type;
pub mod report;
pub mod report_laws;
pub mod resolve;
pub mod text;
