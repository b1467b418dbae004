//! The two reports over a reference graph, as lines of text: who references
//! each commit of the range, and which references a list of already known
//! commits is missing.

use crate::commit::{CommitInfo, CommitInfoView, NO_SUMMARY, NO_TITLE};
use crate::reach::{all_below, discovered};
use crate::ref_graph::{GraphView, RefGraph, Traversal};
use vstd::prelude::*;
use vstd::string::*;

verus! {

/// The summary, or what stands for it.
pub open spec fn title_or(summary: Option<Seq<char>>, fallback: Seq<char>) -> Seq<char> {
    match summary {
        Some(title) => title,
        None => fallback,
    }
}

/// A commit as the reports name it: the hash, then the title in
/// parentheses and quotes.
pub open spec fn quoted(id: Seq<char>, title: Seq<char>) -> Seq<char> {
    id + " (\""@ + title + "\")"@
}

/// The line for a commit that nothing references.
pub open spec fn unmentioned_line(id: Seq<char>, summary: Option<Seq<char>>) -> Seq<char> {
    "Commit "@ + quoted(id, title_or(summary, NO_SUMMARY@)) + " is not mentioned anywhere"@
}

/// The line that opens the list of the commits that reference a commit.
pub open spec fn mentioned_line(id: Seq<char>, summary: Option<Seq<char>>) -> Seq<char> {
    "Found references of commit "@ + quoted(id, title_or(summary, NO_SUMMARY@))
}

/// The line that opens the list of what a known commit is missing.
pub open spec fn header_line(commit: CommitInfoView) -> Seq<char> {
    "Commit "@ + quoted(commit.id, title_or(commit.summary, NO_TITLE@))
        + " has the following references (maybe indirect):"@
}

/// The line for one referencing commit, after the given indentation.
pub open spec fn reference_line(
    indent: Seq<char>,
    id: Seq<char>,
    summary: Option<Seq<char>>,
) -> Seq<char> {
    indent + quoted(id, title_or(summary, NO_SUMMARY@))
}

/// The decimal digit for a number below ten.
pub open spec fn digit(d: nat) -> char {
    if d == 0 {
        '0'
    } else if d == 1 {
        '1'
    } else if d == 2 {
        '2'
    } else if d == 3 {
        '3'
    } else if d == 4 {
        '4'
    } else if d == 5 {
        '5'
    } else if d == 6 {
        '6'
    } else if d == 7 {
        '7'
    } else if d == 8 {
        '8'
    } else {
        '9'
    }
}

/// A number in decimal, without leading zeros.
pub open spec fn decimal(n: nat) -> Seq<char>
    decreases n,
{
    if n < 10 {
        seq![digit(n)]
    } else {
        decimal(n / 10).push(digit(n % 10))
    }
}

/// The last line of the check: how many commits are missing in all.
pub open spec fn summary_line(count: nat) -> Seq<char> {
    "Summary: found "@ + decimal(count) + " probably missing commits"@
}

/// One line for each of the nodes, in order, after the given indentation.
pub open spec fn listed(
    graph: GraphView,
    summaries: Seq<Option<Seq<char>>>,
    indent: Seq<char>,
    nodes: Seq<usize>,
) -> Seq<Seq<char>> {
    nodes.map_values(
        |node: usize| reference_line(indent, graph.ids[node as int], summaries[node as int]),
    )
}

/// The lines of the full report for the commit at index `node`: one line
/// if nothing references it, else a heading and one line for each commit
/// that references it, in the order of discovery.
pub open spec fn dump_block(
    graph: GraphView,
    summaries: Seq<Option<Seq<char>>>,
    node: int,
    no_notices: bool,
) -> Seq<Seq<char>> {
    let nodes = discovered(graph.referenced_by, node as usize, no_notices);
    if nodes.len() == 0 {
        seq![unmentioned_line(graph.ids[node], summaries[node])]
    } else {
        seq![mentioned_line(graph.ids[node], summaries[node])] + listed(
            graph,
            summaries,
            "  "@,
            nodes,
        )
    }
}

/// The lines of the full report for the first `upto` commits, in the order
/// of their indices.
pub open spec fn dump_lines(
    graph: GraphView,
    summaries: Seq<Option<Seq<char>>>,
    no_notices: bool,
    upto: int,
) -> Seq<Seq<char>>
    decreases upto,
{
    if upto <= 0 {
        Seq::empty()
    } else {
        dump_lines(graph, summaries, no_notices, upto - 1) + dump_block(
            graph,
            summaries,
            upto - 1,
            no_notices,
        )
    }
}

/// The commit `id` is one of the known commits.
pub open spec fn is_known(known: Seq<CommitInfoView>, id: Seq<char>) -> bool {
    exists|j: int| 0 <= j < known.len() && (#[trigger] known[j]).id == id
}

/// The nodes that reference the commit `id`, directly or through others,
/// in the order in which the search discovers them. Nothing references a
/// commit that has not been observed.
pub open spec fn referencing(graph: GraphView, id: Seq<char>, no_notices: bool) -> Seq<usize> {
    if graph.ids.contains(id) {
        discovered(graph.referenced_by, graph.ids.index_of(id) as usize, no_notices)
    } else {
        Seq::empty()
    }
}

/// The nodes that reference known commit `k` and are not known themselves,
/// in the order in which the search discovers them.
pub open spec fn missing_nodes(
    graph: GraphView,
    known: Seq<CommitInfoView>,
    k: int,
    no_notices: bool,
) -> Seq<usize> {
    referencing(graph, known[k].id, no_notices).filter(
        |node: usize| !is_known(known, graph.ids[node as int]),
    )
}

/// The hashes of the commits that known commit `k` is missing.
pub open spec fn missing_of(
    graph: GraphView,
    known: Seq<CommitInfoView>,
    k: int,
    no_notices: bool,
) -> Seq<Seq<char>> {
    missing_nodes(graph, known, k, no_notices).map_values(|node: usize| graph.ids[node as int])
}

/// The lines of the check for known commit `k`: nothing if it misses no
/// reference, else a heading and one line for each commit that it misses.
pub open spec fn check_block(
    graph: GraphView,
    summaries: Seq<Option<Seq<char>>>,
    known: Seq<CommitInfoView>,
    k: int,
    no_notices: bool,
) -> Seq<Seq<char>> {
    let missing = missing_nodes(graph, known, k, no_notices);
    if missing.len() == 0 {
        Seq::empty()
    } else {
        seq![header_line(known[k])] + listed(graph, summaries, "    "@, missing)
    }
}

/// The lines of the check for the first `upto` known commits.
pub open spec fn check_lines(
    graph: GraphView,
    summaries: Seq<Option<Seq<char>>>,
    known: Seq<CommitInfoView>,
    no_notices: bool,
    upto: int,
) -> Seq<Seq<char>>
    decreases upto,
{
    if upto <= 0 {
        Seq::empty()
    } else {
        check_lines(graph, summaries, known, no_notices, upto - 1) + check_block(
            graph,
            summaries,
            known,
            upto - 1,
            no_notices,
        )
    }
}

/// The commits that the first `upto` known commits are missing, each once,
/// in the order in which they first turn up.
pub open spec fn missing_upto(
    graph: GraphView,
    known: Seq<CommitInfoView>,
    no_notices: bool,
    upto: int,
) -> Seq<Seq<char>>
    decreases upto,
{
    if upto <= 0 {
        Seq::empty()
    } else {
        missing_of(graph, known, upto - 1, no_notices).remove_duplicates(
            missing_upto(graph, known, no_notices, upto - 1),
        )
    }
}

/// The outcome of a check of known commits against the graph.
#[derive(Debug)]
pub struct CheckReport {
    /// The report as text: for each known commit that misses references
    /// its block, then the summary line.
    pub lines: Vec<String>,
    /// The hashes of the missing commits, each once.
    pub missing: Vec<String>,
}

/// Appends the name of a commit, as the reports write it, to a line.
fn push_quoted(line: &mut String, id: &str, summary: &Option<String>, fallback: &str)
    ensures
        final(line)@ == old(line)@ + quoted(id@, title_or(summary.deep_view(), fallback@)),
{
    line.append(id);
    line.append(" (\"");
    match summary {
        Some(title) => line.append(title.as_str()),
        None => line.append(fallback),
    }
    line.append("\")");
}

/// The decimal digit for a number below ten, as text.
fn digit_text(d: usize) -> (text: &'static str)
    requires
        d < 10,
    ensures
        text@ == seq![digit(d as nat)],
{
    proof {
        reveal_strlit("0");
        reveal_strlit("1");
        reveal_strlit("2");
        reveal_strlit("3");
        reveal_strlit("4");
        reveal_strlit("5");
        reveal_strlit("6");
        reveal_strlit("7");
        reveal_strlit("8");
        reveal_strlit("9");
    }
    let text = if d == 0 {
        "0"
    } else if d == 1 {
        "1"
    } else if d == 2 {
        "2"
    } else if d == 3 {
        "3"
    } else if d == 4 {
        "4"
    } else if d == 5 {
        "5"
    } else if d == 6 {
        "6"
    } else if d == 7 {
        "7"
    } else if d == 8 {
        "8"
    } else {
        "9"
    };
    text
}

/// Appends a number in decimal to a line.
fn push_decimal(line: &mut String, n: usize)
    ensures
        final(line)@ == old(line)@ + decimal(n as nat),
    decreases n,
{
    if n >= 10 {
        push_decimal(line, n / 10);
    }
    line.append(digit_text(n % 10));
}

/// A list of `n` flags, none of them set.
fn cleared(n: usize) -> (flags: Vec<bool>)
    ensures
        flags@.len() == n,
        forall|i: int| 0 <= i < n ==> !#[trigger] flags@[i],
{
    let mut flags: Vec<bool> = Vec::new();
    while flags.len() < n
        invariant
            flags@.len() <= n,
            forall|i: int| 0 <= i < flags@.len() ==> !#[trigger] flags@[i],
        decreases n - flags.len(),
    {
        flags.push(false);
    }
    flags
}

/// The flags say of each node whether it is one of the known commits.
spec fn flags_known(flags: Seq<bool>, graph: GraphView, known: Seq<CommitInfoView>) -> bool {
    &&& flags.len() == graph.ids.len()
    &&& forall|node: int|
        0 <= node < graph.ids.len() ==> (#[trigger] flags[node] <==> is_known(
            known,
            graph.ids[node],
        ))
}

/// The flags say of each node whether it is on the list.
spec fn flags_listed(flags: Seq<bool>, graph: GraphView, list: Seq<Seq<char>>) -> bool {
    &&& flags.len() == graph.ids.len()
    &&& forall|node: int|
        0 <= node < graph.ids.len() ==> (#[trigger] flags[node] <==> list.contains(
            graph.ids[node],
        ))
}

impl RefGraph {
    /// Appends one line for each of the nodes to the report.
    fn push_references(
        &self,
        lines: &mut Vec<String>,
        nodes: &Vec<usize>,
        indent: &str,
        summaries: &Vec<Option<String>>,
    )
        requires
            self.wf(),
            all_below(nodes@, self@.ids.len()),
            summaries.len() == self@.ids.len(),
        ensures
            final(lines).deep_view() == old(lines).deep_view() + listed(
                self@,
                summaries.deep_view(),
                indent@,
                nodes@,
            ),
    {
        let ghost graph = self@;
        let ghost titles = summaries.deep_view();
        let ghost before = lines.deep_view();
        let ghost entry = |node: usize|
            reference_line(indent@, graph.ids[node as int], titles[node as int]);
        let oids = self.get_oids();
        for k in 0..nodes.len()
            invariant
                graph == self@,
                titles == summaries.deep_view(),
                oids.deep_view() == graph.ids,
                summaries.len() == graph.ids.len(),
                all_below(nodes@, graph.ids.len()),
                entry == (|node: usize|
                    reference_line(indent@, graph.ids[node as int], titles[node as int])),
                lines.deep_view() == before + nodes@.take(k as int).map_values(entry),
        {
            let node = nodes[k];
            let ghost sofar = lines.deep_view();
            let mut line = indent.to_owned();
            push_quoted(&mut line, oids[node].as_str(), &summaries[node], NO_SUMMARY);
            lines.push(line);
            proof {
                assert(lines.deep_view() =~= sofar.push(entry(node)));
            }
        }
    }

    /// The full report: for every commit of the graph, in the order of the
    /// indices, either the line that says that it is not mentioned
    /// anywhere, or a heading followed by every commit that references it,
    /// directly or through others. `summaries` holds the summary of each
    /// commit of the graph, by index.
    pub fn dump_info(
        &self,
        ctx: &mut Traversal,
        summaries: &Vec<Option<String>>,
        no_notices: bool,
    ) -> (lines: Vec<String>)
        requires
            self.wf(),
            old(ctx).wf(),
            summaries.len() == self@.ids.len(),
        ensures
            final(ctx).wf(),
            lines.deep_view() == dump_lines(
                self@,
                summaries.deep_view(),
                no_notices,
                self@.ids.len() as int,
            ),
    {
        let ghost graph = self@;
        let ghost titles = summaries.deep_view();
        let oids = self.get_oids();
        let mut lines: Vec<String> = Vec::new();
        let n = self.len();
        for node in 0..n
            invariant
                self.wf(),
                ctx.wf(),
                graph == self@,
                titles == summaries.deep_view(),
                oids.deep_view() == graph.ids,
                n == graph.ids.len(),
                summaries.len() == n,
                lines.deep_view() == dump_lines(graph, titles, no_notices, node as int),
        {
            let nodes = self.dfs(ctx, node, no_notices);
            if nodes.len() == 0 {
                let mut line = "Commit ".to_owned();
                push_quoted(&mut line, oids[node].as_str(), &summaries[node], NO_SUMMARY);
                line.append(" is not mentioned anywhere");
                lines.push(line);
            } else {
                let mut line = "Found references of commit ".to_owned();
                push_quoted(&mut line, oids[node].as_str(), &summaries[node], NO_SUMMARY);
                lines.push(line);
                self.push_references(&mut lines, &nodes, "  ", summaries);
            }
        }
        lines
    }

    /// The nodes that reference the commit `id`, directly or through
    /// others.
    fn referencing(&self, ctx: &mut Traversal, id: &str, no_notices: bool) -> (nodes: Vec<usize>)
        requires
            self.wf(),
            old(ctx).wf(),
        ensures
            final(ctx).wf(),
            nodes@ == referencing(self@, id@, no_notices),
            all_below(nodes@, self@.ids.len()),
    {
        proof {
            self.lemma_wf_view();
        }
        match self.lookup(id) {
            Some(start) => {
                self.dfs(ctx, start, no_notices)
            },
            None => Vec::new(),
        }
    }

    /// For each node of the graph, whether it is one of the known commits.
    fn known_nodes(&self, known: &Vec<CommitInfo>) -> (flags: Vec<bool>)
        requires
            self.wf(),
        ensures
            flags_known(flags@, self@, known.deep_view()),
    {
        let n = self.len();
        let mut flags = cleared(n);
        let ghost list = known.deep_view();
        proof {
            self.lemma_wf_view();
        }
        for j in 0..known.len()
            invariant
                self.wf(),
                self@.wf(),
                list == known.deep_view(),
                flags_known(flags@, self@, list.take(j as int)),
        {
            let ghost now = list.take(j + 1);
            match self.lookup(known[j].id.as_str()) {
                Some(node) => {
                    flags[node] = true;
                },
                None => {},
            }
            proof {
                assert forall|node: int| 0 <= node < self@.ids.len() implies (
                #[trigger] flags@[node] <==> is_known(now, self@.ids[node])) by {
                    let id = self@.ids[node];
                    if list[j as int].id == id {
                        assert(now[j as int].id == id);
                    }
                }
            }
        }
        proof {
            assert(list.take(known.len() as int) =~= list);
        }
        flags
    }

    /// Those of the nodes that are not known commits, in order.
    fn unknown_among(
        &self,
        nodes: &Vec<usize>,
        known_node: &Vec<bool>,
        Ghost(known): Ghost<Seq<CommitInfoView>>,
    ) -> (rest: Vec<usize>)
        requires
            all_below(nodes@, self@.ids.len()),
            flags_known(known_node@, self@, known),
        ensures
            rest@ == nodes@.filter(|node: usize| !is_known(known, self@.ids[node as int])),
            all_below(rest@, self@.ids.len()),
    {
        let ghost unknown = |node: usize| !is_known(known, self@.ids[node as int]);
        let mut rest: Vec<usize> = Vec::new();
        proof {
            nodes@.take(0).lemma_filter_len(unknown);
        }
        for i in 0..nodes.len()
            invariant
                all_below(nodes@, self@.ids.len()),
                all_below(rest@, self@.ids.len()),
                flags_known(known_node@, self@, known),
                unknown == (|node: usize| !is_known(known, self@.ids[node as int])),
                rest@ == nodes@.take(i as int).filter(unknown),
        {
            let node = nodes[i];
            proof {
                assert(nodes@.take(i + 1) =~= nodes@.take(i as int).push(node));
                nodes@.take(i as int).lemma_filter_push(node, unknown);
            }
            if !known_node[node] {
                rest.push(node);
            }
        }
        assert(nodes@.take(nodes@.len() as int) =~= nodes@);
        rest
    }

    /// Puts the commits of the nodes that are not yet on the list of
    /// missing commits on it, and flags them.
    fn count_missing(&self, reported: &mut Vec<bool>, missing: &mut Vec<String>, nodes: &Vec<usize>)
        requires
            self.wf(),
            all_below(nodes@, self@.ids.len()),
            flags_listed(old(reported)@, self@, old(missing).deep_view()),
        ensures
            flags_listed(final(reported)@, self@, final(missing).deep_view()),
            final(missing).deep_view() == nodes@.map_values(
                |node: usize| self@.ids[node as int],
            ).remove_duplicates(old(missing).deep_view()),
    {
        let ghost graph = self@;
        let ghost name = |node: usize| graph.ids[node as int];
        let ghost gaps = nodes@.map_values(name);
        let ghost start = missing.deep_view();
        let oids = self.get_oids();
        proof {
            self.lemma_wf_view();
            assert(gaps.skip(0) =~= gaps);
        }
        for i in 0..nodes.len()
            invariant
                graph == self@,
                graph.wf(),
                oids.deep_view() == graph.ids,
                all_below(nodes@, graph.ids.len()),
                gaps == nodes@.map_values(|node: usize| graph.ids[node as int]),
                flags_listed(reported@, graph, missing.deep_view()),
                gaps.skip(i as int).remove_duplicates(missing.deep_view())
                    == gaps.remove_duplicates(start),
        {
            let node = nodes[i];
            let ghost sofar = missing.deep_view();
            let ghost rest = gaps.skip(i as int);
            proof {
                assert(rest.skip(1) =~= gaps.skip(i + 1));
            }
            if !reported[node] {
                reported[node] = true;
                missing.push(oids[node].clone());
                proof {
                    let grown = missing.deep_view();
                    assert(grown =~= sofar + seq![graph.ids[node as int]]);
                    assert forall|other: int| 0 <= other < graph.ids.len() implies (
                    #[trigger] reported@[other] <==> grown.contains(graph.ids[other])) by {
                        let id = graph.ids[other];
                        if other == node {
                            assert(grown[sofar.len() as int] == id);
                        } else {
                            if sofar.contains(id) {
                                let w = choose|w: int| 0 <= w < sofar.len() && sofar[w] == id;
                                assert(grown[w] == id);
                            }
                        }
                    }
                }
            }
        }
    }

    /// The check of a list of known commits against the graph. For each
    /// known commit, in the order of the list, the commits that reference
    /// it, directly or through others, and are not in the list themselves
    /// are reported as missing; a known commit that misses nothing is
    /// passed over. The last line gives the number of different missing
    /// commits. `summaries` holds the summary of each commit of the graph,
    /// by index.
    pub fn check_commits(
        &self,
        ctx: &mut Traversal,
        known: &Vec<CommitInfo>,
        summaries: &Vec<Option<String>>,
        no_notices: bool,
    ) -> (report: CheckReport)
        requires
            self.wf(),
            old(ctx).wf(),
            summaries.len() == self@.ids.len(),
        ensures
            final(ctx).wf(),
            report.missing.deep_view() == missing_upto(
                self@,
                known.deep_view(),
                no_notices,
                known.len() as int,
            ),
            report.lines.deep_view() == check_lines(
                self@,
                summaries.deep_view(),
                known.deep_view(),
                no_notices,
                known.len() as int,
            ).push(summary_line(report.missing.len() as nat)),
    {
        let ghost graph = self@;
        let ghost titles = summaries.deep_view();
        let ghost list = known.deep_view();
        let known_node = self.known_nodes(known);
        let mut reported = cleared(self.len());
        let mut lines: Vec<String> = Vec::new();
        let mut missing: Vec<String> = Vec::new();
        for k in 0..known.len()
            invariant
                self.wf(),
                ctx.wf(),
                graph == self@,
                titles == summaries.deep_view(),
                list == known.deep_view(),
                summaries.len() == graph.ids.len(),
                flags_known(known_node@, graph, list),
                flags_listed(reported@, graph, missing.deep_view()),
                missing.deep_view() == missing_upto(graph, list, no_notices, k as int),
                lines.deep_view() == check_lines(graph, titles, list, no_notices, k as int),
        {
            let commit = &known[k];
            let nodes = self.referencing(ctx, commit.id.as_str(), no_notices);
            let gaps = self.unknown_among(&nodes, &known_node, Ghost(list));
            if gaps.len() > 0 {
                let mut line = "Commit ".to_owned();
                push_quoted(&mut line, commit.id.as_str(), &commit.summary, NO_TITLE);
                line.append(" has the following references (maybe indirect):");
                lines.push(line);
                self.push_references(&mut lines, &gaps, "    ", summaries);
            }
            self.count_missing(&mut reported, &mut missing, &gaps);
        }
        let mut line = "Summary: found ".to_owned();
        push_decimal(&mut line, missing.len());
        line.append(" probably missing commits");
        lines.push(line);
        CheckReport { lines, missing }
    }
}

} // verus!
