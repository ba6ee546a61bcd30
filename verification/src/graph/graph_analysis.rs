//! Diagnosis of a graph: cycles, unreachable nodes, fallback edges on cycles.

use vstd::prelude::*;

use crate::error;
use crate::error::{DiagnosticCategory, DiagnosticSeverity, Finding, GraphDiagnostics};
use crate::graph::cycles;
use crate::graph::graph_core;
use crate::graph::graph_core::{Edge, Graph};
use crate::graph::node_table;
use crate::graph::reach;
use crate::string_map::StringMap;
use crate::text;

verus! {

/// The name after position `i` on a cycle.
pub open spec fn follower(c: Seq<Seq<char>>, i: int) -> Seq<char> {
    if i + 1 == c.len() {
        c[0]
    } else {
        c[i + 1]
    }
}

/// Some edge of the cycle has a limit on visits.
pub open spec fn protected<C>(edges: Seq<Edge<C>>, c: Seq<Seq<char>>) -> bool {
    exists|i: int, k: int|
        0 <= i < c.len() && 0 <= k < edges.len() && #[trigger] limits(edges[k], c, i)
}

/// The edge leads from position `i` of the cycle to the next and has a limit on
/// visits.
pub open spec fn limits<C>(e: Edge<C>, c: Seq<Seq<char>>, i: int) -> bool {
    e.from@ == c[i] && e.to@ == follower(c, i) && e.limited()
}

/// The order of lists of texts: item by item, a prefix first.
pub open spec fn list_less(a: Seq<Seq<char>>, b: Seq<Seq<char>>) -> bool
    decreases a.len(),
{
    if b.len() == 0 {
        false
    } else if a.len() == 0 {
        true
    } else if a[0] != b[0] {
        text::text_less(a[0], b[0])
    } else {
        list_less(a.drop_first(), b.drop_first())
    }
}

/// Every list comes before the next ones.
pub open spec fn ascending(s: Seq<Seq<Seq<char>>>) -> bool {
    forall|i: int, j: int| 0 <= i < j < s.len() ==> list_less(#[trigger] s[i], #[trigger] s[j])
}

proof fn lemma_list_less_irreflexive(a: Seq<Seq<char>>)
    ensures
        !list_less(a, a),
    decreases a.len(),
{
    if a.len() > 0 {
        lemma_list_less_irreflexive(a.drop_first());
    }
}

proof fn lemma_list_less_transitive(a: Seq<Seq<char>>, b: Seq<Seq<char>>, c: Seq<Seq<char>>)
    requires
        list_less(a, b),
        list_less(b, c),
    ensures
        list_less(a, c),
    decreases a.len(),
{
    if a.len() > 0 && b.len() > 0 && c.len() > 0 {
        text::lemma_text_order_total();
        let r = text::text_order();
        if a[0] == b[0] && b[0] == c[0] {
            lemma_list_less_transitive(a.drop_first(), b.drop_first(), c.drop_first());
        } else if a[0] != b[0] && b[0] != c[0] {
            assert(r(a[0], b[0]) && r(b[0], c[0]));
            assert(r(a[0], c[0]));
            if a[0] == c[0] {
                assert(r(b[0], a[0]));
            }
        }
    }
}

proof fn lemma_list_less_connected(a: Seq<Seq<char>>, b: Seq<Seq<char>>)
    ensures
        a == b || list_less(a, b) || list_less(b, a),
    decreases a.len(),
{
    if a.len() > 0 && b.len() > 0 {
        if a[0] == b[0] {
            lemma_list_less_connected(a.drop_first(), b.drop_first());
            assert(a =~= seq![a[0]] + a.drop_first());
            assert(b =~= seq![b[0]] + b.drop_first());
        } else {
            text::lemma_text_order_total();
            let r = text::text_order();
            assert(r(a[0], b[0]) || r(b[0], a[0]));
        }
    } else if a.len() == 0 && b.len() == 0 {
        assert(a =~= b);
    }
}

/// An ascending list is fixed by what it holds.
pub proof fn lemma_ascending_unique(a: Seq<Seq<Seq<char>>>, b: Seq<Seq<Seq<char>>>)
    requires
        ascending(a),
        ascending(b),
        forall|c: Seq<Seq<char>>| #[trigger] a.contains(c) <==> b.contains(c),
    ensures
        a == b,
    decreases a.len(),
{
    if a.len() == 0 {
        if b.len() > 0 {
            assert(a.contains(b[0]));
        }
        assert(a =~= b);
    } else {
        assert(a.contains(a[0]));
        assert(b.contains(a[0]));
        let j = b.index_of(a[0]);
        assert(a.contains(b[0])) by {
            assert(b.contains(b[0]));
        }
        let i = a.index_of(b[0]);
        if j > 0 {
            assert(list_less(b[0], b[j]));
            if i > 0 {
                assert(list_less(a[0], a[i]));
                lemma_list_less_transitive(a[0], a[i], a[0]);
            }
            lemma_list_less_irreflexive(a[0]);
        }
        assert(a[0] == b[0]);
        let x = a.drop_first();
        let y = b.drop_first();
        assert forall|c: Seq<Seq<char>>| #[trigger] x.contains(c) <==> y.contains(c) by {
            if x.contains(c) {
                let k = x.index_of(c);
                assert(a[k + 1] == c);
                assert(a.contains(c));
                let n = b.index_of(c);
                if n == 0 {
                    assert(list_less(a[0], a[k + 1]));
                    lemma_list_less_irreflexive(a[0]);
                }
                assert(y[n - 1] == c);
            }
            if y.contains(c) {
                let k = y.index_of(c);
                assert(b[k + 1] == c);
                assert(b.contains(c));
                assert(a.contains(c));
                let n = a.index_of(c);
                if n == 0 {
                    assert(list_less(b[0], b[k + 1]));
                    lemma_list_less_irreflexive(b[0]);
                }
                assert(x[n - 1] == c);
            }
        }
        assert forall|p: int, q: int| 0 <= p < q < x.len() implies list_less(
            #[trigger] x[p],
            #[trigger] x[q],
        ) by {
            assert(list_less(a[p + 1], a[q + 1]));
        }
        assert forall|p: int, q: int| 0 <= p < q < y.len() implies list_less(
            #[trigger] y[p],
            #[trigger] y[q],
        ) by {
            assert(list_less(b[p + 1], b[q + 1]));
        }
        lemma_ascending_unique(x, y);
        assert(a =~= seq![a[0]] + x);
        assert(b =~= seq![b[0]] + y);
    }
}

/// The cycles without any limit on visits, each once, in ascending order.
pub open spec fn is_unprotected<C>(
    edges: Seq<Edge<C>>,
    all: Seq<Seq<Seq<char>>>,
    list: Seq<Seq<Seq<char>>>,
) -> bool {
    &&& ascending(list)
    &&& forall|c: Seq<Seq<char>>| #[trigger]
        list.contains(c) <==> all.contains(c) && !protected(edges, c)
}

/// The cycles without any limit on visits, each once, in ascending order.
pub open spec fn unprotected<C>(edges: Seq<Edge<C>>, all: Seq<Seq<Seq<char>>>) -> Seq<
    Seq<Seq<char>>,
> {
    choose|list: Seq<Seq<Seq<char>>>| is_unprotected(edges, all, list)
}

/// Whether a list comes before another.
fn list_before(a: &Vec<String>, b: &Vec<String>) -> (r: bool)
    ensures
        r == list_less(text::texts(a@), text::texts(b@)),
{
    let ghost x = text::texts(a@);
    let ghost y = text::texts(b@);
    let mut i: usize = 0;
    assert(x.skip(0) =~= x);
    assert(y.skip(0) =~= y);
    while i < b.len()
        invariant
            i <= b@.len(),
            i <= a@.len(),
            x == text::texts(a@),
            y == text::texts(b@),
            list_less(x, y) == list_less(x.skip(i as int), y.skip(i as int)),
        decreases b@.len() - i,
    {
        if i >= a.len() {
            return true;
        }
        let same = text::same_text(a[i].as_str(), b[i].as_str());
        assert(x.skip(i as int)[0] == a@[i as int]@);
        assert(y.skip(i as int)[0] == b@[i as int]@);
        if !same {
            return text::before(a[i].as_str(), b[i].as_str());
        }
        assert(x.skip(i as int).drop_first() =~= x.skip(i + 1));
        assert(y.skip(i as int).drop_first() =~= y.skip(i + 1));
        i += 1;
    }
    false
}

fn same_list(a: &Vec<String>, b: &Vec<String>) -> (r: bool)
    ensures
        r == (text::texts(a@) == text::texts(b@)),
{
    if a.len() != b.len() {
        assert(text::texts(a@).len() != text::texts(b@).len());
        return false;
    }
    let mut i: usize = 0;
    while i < a.len()
        invariant
            i <= a@.len() == b@.len(),
            forall|j: int| 0 <= j < i ==> #[trigger] text::texts(a@)[j] == text::texts(b@)[j],
        decreases a@.len() - i,
    {
        if !text::same_text(a[i].as_str(), b[i].as_str()) {
            assert(text::texts(a@)[i as int] != text::texts(b@)[i as int]);
            return false;
        }
        i += 1;
    }
    assert(text::texts(a@) =~= text::texts(b@));
    true
}

fn holds_list(items: &Vec<Vec<String>>, item: &Vec<String>) -> (found: bool)
    ensures
        found == cycles::lists(items@).contains(text::texts(item@)),
{
    let mut i: usize = 0;
    while i < items.len()
        invariant
            i <= items@.len(),
            forall|j: int|
                0 <= j < i ==> #[trigger] cycles::lists(items@)[j] != text::texts(item@),
        decreases items@.len() - i,
    {
        if same_list(&items[i], item) {
            assert(cycles::lists(items@)[i as int] == text::texts(item@));
            return true;
        }
        i += 1;
    }
    false
}

/// Puts a list into an ascending sequence, unless it is there.
fn insert_list(sorted: &mut Vec<Vec<String>>, item: Vec<String>)
    requires
        ascending(cycles::lists(old(sorted)@)),
    ensures
        ascending(cycles::lists(final(sorted)@)),
        forall|c: Seq<Seq<char>>| #[trigger]
            cycles::lists(final(sorted)@).contains(c) <==> cycles::lists(old(sorted)@).contains(c)
                || c == text::texts(item@),
{
    let ghost before = cycles::lists(sorted@);
    let ghost word = text::texts(item@);
    let mut at: usize = 0;
    while at < sorted.len() && list_before(&sorted[at], &item)
        invariant
            at <= sorted@.len(),
            before == cycles::lists(sorted@),
            word == text::texts(item@),
            forall|j: int| 0 <= j < at ==> list_less(#[trigger] before[j], word),
        decreases sorted@.len() - at,
    {
        at += 1;
    }
    if at < sorted.len() && same_list(&sorted[at], &item) {
        assert(before[at as int] == word);
        return;
    }
    sorted.insert(at, item);
    proof {
        let after = cycles::lists(sorted@);
        assert(after =~= before.insert(at as int, word));
        assert forall|j: int| at <= j < before.len() implies list_less(word, #[trigger] before[j]) by {
            lemma_list_less_connected(word, before[at as int]);
            if j > at {
                assert(list_less(before[at as int], before[j]));
                lemma_list_less_transitive(word, before[at as int], before[j]);
            }
        }
        assert forall|i: int, j: int| 0 <= i < j < after.len() implies list_less(
            #[trigger] after[i],
            #[trigger] after[j],
        ) by {
            if i == at {
                assert(after[j] == before[j - 1]);
            } else if j == at {
                assert(after[i] == before[i]);
            } else {
                let x = if i < at { i } else { i - 1 };
                let y = if j < at { j } else { j - 1 };
                assert(list_less(before[x], before[y]));
            }
        }
        assert forall|c: Seq<Seq<char>>| #[trigger] after.contains(c) <==> before.contains(c) || c
            == word by {
            if after.contains(c) {
                let i = after.index_of(c);
                if i != at {
                    let x = if i < at { i } else { i - 1 };
                    assert(before[x] == c);
                }
            }
            if before.contains(c) {
                let i = before.index_of(c);
                let x = if i < at { i } else { i + 1 };
                assert(after[x] == c);
            }
            if c == word {
                assert(after[at as int] == c);
            }
        }
    }
}

fn is_protected<C>(edges: &Vec<Edge<C>>, c: &Vec<String>) -> (r: bool)
    ensures
        r == protected(edges@, text::texts(c@)),
{
    let ghost names = text::texts(c@);
    let mut i: usize = 0;
    while i < c.len()
        invariant
            i <= c@.len(),
            names == text::texts(c@),
            forall|j: int, k: int|
                0 <= j < i && 0 <= k < edges@.len() ==> !#[trigger] limits(edges@[k], names, j),
        decreases c@.len() - i,
    {
        let next: usize = if i + 1 == c.len() {
            0
        } else {
            i + 1
        };
        let from = c[i].as_str();
        let to = c[next].as_str();
        assert(from@ == names[i as int] && to@ == follower(names, i as int));
        let mut k: usize = 0;
        while k < edges.len()
            invariant
                i < c@.len(),
                k <= edges@.len(),
                names == text::texts(c@),
                from@ == names[i as int],
                to@ == follower(names, i as int),
                forall|n: int| 0 <= n < k ==> !#[trigger] limits(edges@[n], names, i as int),
            decreases edges@.len() - k,
        {
            let e = &edges[k];
            if text::same_text(e.from.as_str(), from) && text::same_text(e.to.as_str(), to)
                && e.has_max_visits() {
                assert(limits(edges@[k as int], names, i as int));
                return true;
            }
            k += 1;
        }
        i += 1;
    }
    false
}

/// The cycles none of whose edges has a limit on visits, each once, in ascending
/// order.
pub fn filter_unprotected_cycles<N, C>(
    graph: &Graph<N, C>,
    all: &Vec<Vec<String>>,
) -> (found: Vec<Vec<String>>)
    ensures
        is_unprotected(graph.edges@, cycles::lists(all@), cycles::lists(found@)),
        cycles::lists(found@) == unprotected(graph.edges@, cycles::lists(all@)),
{
    let mut found: Vec<Vec<String>> = Vec::new();
    let ghost every = cycles::lists(all@);
    let mut i: usize = 0;
    while i < all.len()
        invariant
            i <= all@.len(),
            every == cycles::lists(all@),
            ascending(cycles::lists(found@)),
            forall|c: Seq<Seq<char>>| #[trigger]
                cycles::lists(found@).contains(c) <==> every.take(i as int).contains(c)
                    && !protected(graph.edges@, c),
        decreases all@.len() - i,
    {
        let ghost so_far = cycles::lists(found@);
        let ghost here = text::texts(all@[i as int]@);
        if !is_protected(&graph.edges, &all[i]) {
            insert_list(&mut found, text::copy_texts(&all[i]));
        }
        i += 1;
        proof {
            let now = every.take(i as int);
            let was = every.take(i - 1);
            assert(now =~= was.push(here));
            assert forall|c: Seq<Seq<char>>| #[trigger] cycles::lists(found@).contains(c)
                <==> now.contains(c) && !protected(graph.edges@, c) by {
                if was.contains(c) {
                    let k = was.index_of(c);
                    assert(now[k] == c);
                }
                if now.contains(c) {
                    let k = now.index_of(c);
                    if k < was.len() {
                        assert(was[k] == c);
                    }
                }
                assert(now[was.len() as int] == here);
                assert(so_far.contains(c) <==> was.contains(c) && !protected(graph.edges@, c));
            }
        }
    }
    proof {
        assert(every.take(every.len() as int) =~= every);
        let list = cycles::lists(found@);
        assert(is_unprotected(graph.edges@, every, list));
        let other = unprotected(graph.edges@, every);
        assert forall|c: Seq<Seq<char>>| #[trigger] list.contains(c) <==> other.contains(c) by {
            assert(other.contains(c) <==> every.contains(c) && !protected(graph.edges@, c));
        }
        lemma_ascending_unique(list, other);
    }
    found
}

/// A cycle as text, with arrows between the names.
pub open spec fn cycle_text(c: Seq<Seq<char>>) -> Seq<char> {
    text::joined(c, " → "@)
}

/// A cycle as text, back to its first name.
pub open spec fn round_text(c: Seq<Seq<char>>) -> Seq<char> {
    cycle_text(c) + " → "@ + c[0]
}

/// A cycle as text, with arrows between the names.
pub fn format_cycle(cycle: &Vec<String>) -> (s: String)
    ensures
        s@ == cycle_text(text::texts(cycle@)),
{
    text::join(cycle, " → ")
}

fn format_round(cycle: &Vec<String>) -> (s: String)
    requires
        cycle@.len() > 0,
    ensures
        s@ == round_text(text::texts(cycle@)),
{
    let mut s = format_cycle(cycle);
    s.append(" → ");
    s.append(cycle[0].as_str());
    s
}

/// The cycles of a graph.
#[derive(Debug)]
pub struct CycleAnalysis {
    pub has_cycles: bool,
    pub cycles: Vec<Vec<String>>,
    /// The cycles none of whose edges has a limit on visits.
    pub unprotected_cycles: Vec<Vec<String>>,
    pub total_edges: usize,
    /// How many edges have a limit on visits.
    pub protected_edges: usize,
}

/// The lines on cycles in a report, two for each.
pub open spec fn cycle_lines(
    all: Seq<Seq<Seq<char>>>,
    unprotected: Seq<Seq<Seq<char>>>,
) -> Seq<Seq<char>>
    decreases all.len(),
{
    if all.len() == 0 {
        Seq::empty()
    } else {
        cycle_lines(all.drop_last(), unprotected).push(
            "  Cycle "@ + text::decimal_text(all.len()) + ": "@ + round_text(all.last()),
        ).push(
            if unprotected.contains(all.last()) {
                "    ⚠️ UNPROTECTED — no max_visits on back-edge"@
            } else {
                "    ✅ Protected by edge-level analysis"@
            },
        )
    }
}

impl CycleAnalysis {
    /// Whether every cycle has an edge with a limit on visits.
    pub fn all_protected(&self) -> (r: bool)
        ensures
            r == (self.unprotected_cycles@.len() == 0),
    {
        self.unprotected_cycles.len() == 0
    }

    /// The lines of the report.
    pub open spec fn report_lines(self) -> Seq<Seq<char>> {
        if !self.has_cycles {
            seq![
                "=== Graph Cycle Analysis ==="@,
                "No cycles detected — graph is a DAG."@,
            ]
        } else {
            seq![
                "=== Graph Cycle Analysis ==="@,
                "Found "@ + text::decimal_text(self.cycles@.len()) + " cycle(s)."@,
                "Edge protection: "@ + text::decimal_text(self.protected_edges as nat) + "/"@
                    + text::decimal_text(self.total_edges as nat) + " edges have analysis set."@,
            ] + cycle_lines(
                cycles::lists(self.cycles@),
                cycles::lists(self.unprotected_cycles@),
            ) + (if self.unprotected_cycles@.len() == 0 {
                Seq::empty()
            } else {
                seq![
                    ""@,
                    "⚠️ Recommendation: Set analysis.max_visits on back-edges."@,
                ]
            })
        }
    }

    /// The findings as text, line by line. No cycle is empty.
    pub fn report(&self) -> (s: String)
        requires
            self.has_cycles ==> forall|i: int|
                0 <= i < self.cycles@.len() ==> (#[trigger] self.cycles@[i])@.len() > 0,
        ensures
            s@ == text::joined(self.report_lines(), "\n"@),
    {
        let mut lines: Vec<String> = Vec::new();
        lines.push("=== Graph Cycle Analysis ===".to_owned());
        if !self.has_cycles {
            lines.push("No cycles detected — graph is a DAG.".to_owned());
            assert(text::texts(lines@) =~= self.report_lines());
            return text::join(&lines, "\n");
        }
        let mut found = "Found ".to_owned();
        found.append(text::decimal(self.cycles.len() as u64).as_str());
        found.append(" cycle(s).");
        lines.push(found);
        let mut edges = "Edge protection: ".to_owned();
        edges.append(text::decimal(self.protected_edges as u64).as_str());
        edges.append("/");
        edges.append(text::decimal(self.total_edges as u64).as_str());
        edges.append(" edges have analysis set.");
        lines.push(edges);
        let ghost head = text::texts(lines@);
        let ghost all = cycles::lists(self.cycles@);
        let ghost open_cycles = cycles::lists(self.unprotected_cycles@);
        let mut i: usize = 0;
        assert(text::texts(lines@) =~= head + cycle_lines(all.take(0), open_cycles));
        while i < self.cycles.len()
            invariant
                i <= self.cycles@.len(),
                all == cycles::lists(self.cycles@),
                open_cycles == cycles::lists(self.unprotected_cycles@),
                text::texts(lines@) == head + cycle_lines(all.take(i as int), open_cycles),
                forall|i: int|
                    0 <= i < self.cycles@.len() ==> (#[trigger] self.cycles@[i])@.len() > 0,
            decreases self.cycles@.len() - i,
        {
            let cycle = &self.cycles[i];
            let mut line = "  Cycle ".to_owned();
            line.append(text::decimal(i as u64 + 1).as_str());
            line.append(": ");
            line.append(format_round(cycle).as_str());
            let verdict = if holds_list(&self.unprotected_cycles, cycle) {
                "    ⚠️ UNPROTECTED — no max_visits on back-edge".to_owned()
            } else {
                "    ✅ Protected by edge-level analysis".to_owned()
            };
            let ghost was = text::texts(lines@);
            proof {
                text::lemma_texts_push(lines@, line);
                text::lemma_texts_push(lines@.push(line), verdict);
            }
            lines.push(line);
            lines.push(verdict);
            i += 1;
            proof {
                assert(all.take(i as int).drop_last() =~= all.take(i - 1));
                assert(all.take(i as int).last() == text::texts(cycle@));
                assert(text::texts(lines@) =~= head + cycle_lines(all.take(i as int), open_cycles));
            }
        }
        assert(all.take(all.len() as int) =~= all);
        if !self.all_protected() {
            let ghost was = text::texts(lines@);
            lines.push("".to_owned());
            lines.push("⚠️ Recommendation: Set analysis.max_visits on back-edges.".to_owned());
            assert(text::texts(lines@) =~= was + seq![
                ""@,
                "⚠️ Recommendation: Set analysis.max_visits on back-edges."@,
            ]);
        }
        assert(text::texts(lines@) =~= self.report_lines());
        text::join(&lines, "\n")
    }
}

/// How many edges have a limit on visits.
pub open spec fn limited_count<C>(edges: Seq<Edge<C>>) -> nat
    decreases edges.len(),
{
    if edges.len() == 0 {
        0
    } else {
        limited_count(edges.drop_last()) + (if edges.last().limited() {
            1nat
        } else {
            0nat
        })
    }
}

/// A finding of a risk.
pub open spec fn warning(category: DiagnosticCategory, message: Seq<char>) -> Finding {
    Finding { severity: DiagnosticSeverity::Warning, category, message }
}

/// A finding worth knowing.
pub open spec fn note(category: DiagnosticCategory, message: Seq<char>) -> Finding {
    Finding { severity: DiagnosticSeverity::Info, category, message }
}

/// The warnings on cycles without a limit on visits.
pub open spec fn cycle_warnings(open_cycles: Seq<Seq<Seq<char>>>) -> Seq<Finding> {
    open_cycles.map_values(
        |c: Seq<Seq<char>>|
            warning(DiagnosticCategory::Cycle, "cycle detected: "@ + round_text(c)),
    )
}

/// The notes on cycles with a limit on visits.
pub open spec fn protected_notes<C>(edges: Seq<Edge<C>>, all: Seq<Seq<Seq<char>>>) -> Seq<Finding>
    decreases all.len(),
{
    if all.len() == 0 {
        Seq::empty()
    } else if protected(edges, all.last()) {
        protected_notes(edges, all.drop_last()).push(
            note(
                DiagnosticCategory::Cycle,
                "protected cycle: "@ + round_text(all.last()) + " (has max_visits)"@,
            ),
        )
    } else {
        protected_notes(edges, all.drop_last())
    }
}

/// A fallback edge leads from one node to the other.
pub open spec fn falls_back<C>(edges: Seq<Edge<C>>, from: Seq<char>, to: Seq<char>) -> bool {
    exists|k: int|
        0 <= k < edges.len() && (#[trigger] edges[k]).fallback && edges[k].from@ == from
            && edges[k].to@ == to
}

/// The warnings on the first `n` steps of a cycle that a fallback edge takes.
pub open spec fn step_warnings<C>(edges: Seq<Edge<C>>, c: Seq<Seq<char>>, n: nat) -> Seq<Finding>
    decreases n,
{
    if n == 0 {
        Seq::empty()
    } else {
        let i = n - 1;
        let before = step_warnings(edges, c, i as nat);
        if falls_back(edges, c[i], follower(c, i)) {
            before.push(
                warning(
                    DiagnosticCategory::FallbackInCycle,
                    "fallback edge "@ + c[i] + " → "@ + follower(c, i)
                        + " participates in cycle: "@ + round_text(c),
                ),
            )
        } else {
            before
        }
    }
}

/// The warnings on steps of cycles that a fallback edge takes.
pub open spec fn fallback_warnings<C>(edges: Seq<Edge<C>>, all: Seq<Seq<Seq<char>>>) -> Seq<
    Finding,
>
    decreases all.len(),
{
    if all.len() == 0 {
        Seq::empty()
    } else {
        fallback_warnings(edges, all.drop_last()) + step_warnings(
            edges,
            all.last(),
            all.last().len(),
        )
    }
}

/// The notes on nodes that no walk from the start reaches.
pub open spec fn unreachable_notes<C>(
    edges: Seq<Edge<C>>,
    start: Seq<char>,
    names: Seq<Seq<char>>,
) -> Seq<Finding>
    decreases names.len(),
{
    if names.len() == 0 {
        Seq::empty()
    } else if reach::reachable(edges, start, names.last()) {
        unreachable_notes(edges, start, names.drop_last())
    } else {
        unreachable_notes(edges, start, names.drop_last()).push(
            note(
                DiagnosticCategory::Unreachable,
                "node '"@ + names.last() + "' is not reachable from start node '"@ + start + "'"@,
            ),
        )
    }
}

/// The note on edges that leave the end node.
pub open spec fn end_notes<C>(edges: Seq<Edge<C>>, end: Seq<char>) -> Seq<Finding> {
    let outgoing = cycles::successors(edges, end);
    if outgoing.len() == 0 {
        Seq::empty()
    } else {
        seq![
            note(
                DiagnosticCategory::EndNodeOutgoing,
                "end node '"@ + end + "' has "@ + text::decimal_text(outgoing.len())
                    + " outgoing edge(s) to: "@ + text::quoted_list(outgoing),
            ),
        ]
    }
}

/// The warnings of a full diagnosis.
pub open spec fn all_warnings<C>(edges: Seq<Edge<C>>, all: Seq<Seq<Seq<char>>>) -> Seq<Finding> {
    cycle_warnings(unprotected(edges, all)) + fallback_warnings(edges, all)
}

/// The notes of a full diagnosis.
pub open spec fn all_notes<C>(
    edges: Seq<Edge<C>>,
    all: Seq<Seq<Seq<char>>>,
    names: Seq<Seq<char>>,
    start: Seq<char>,
    end: Seq<char>,
) -> Seq<Finding> {
    protected_notes(edges, all) + unreachable_notes(edges, start, names) + end_notes(edges, end)
}

fn has_fallback<C>(edges: &Vec<Edge<C>>, from: &str, to: &str) -> (r: bool)
    ensures
        r == falls_back(edges@, from@, to@),
{
    let mut k: usize = 0;
    while k < edges.len()
        invariant
            k <= edges@.len(),
            forall|n: int|
                0 <= n < k ==> !((#[trigger] edges@[n]).fallback && edges@[n].from@ == from@
                    && edges@[n].to@ == to@),
        decreases edges@.len() - k,
    {
        let e = &edges[k];
        if e.fallback && text::same_text(e.from.as_str(), from) && text::same_text(
            e.to.as_str(),
            to,
        ) {
            assert(edges@[k as int].fallback);
            return true;
        }
        k += 1;
    }
    false
}

/// Warns of every step of a cycle that a fallback edge takes.
fn check_fallback_in_cycles<N, C>(
    graph: &Graph<N, C>,
    all: &Vec<Vec<String>>,
    diag: &mut GraphDiagnostics,
)
    ensures
        final(diag).warned() == old(diag).warned() + fallback_warnings(
            graph.edges@,
            cycles::lists(all@),
        ),
        final(diag).infos == old(diag).infos,
{
    let ghost every = cycles::lists(all@);
    let ghost warned0 = diag.warned();
    let ghost edges = graph.edges@;
    let mut i: usize = 0;
    assert(diag.warned() =~= warned0 + fallback_warnings(edges, every.take(0)));
    while i < all.len()
        invariant
            i <= all@.len(),
            every == cycles::lists(all@),
            edges == graph.edges@,
            diag.infos == old(diag).infos,
            diag.warned() == warned0 + fallback_warnings(edges, every.take(i as int)),
        decreases all@.len() - i,
    {
        let cycle = &all[i];
        let ghost c = text::texts(cycle@);
        let ghost so_far = diag.warned();
        let mut k: usize = 0;
        assert(diag.warned() =~= so_far + step_warnings(edges, c, 0));
        while k < cycle.len()
            invariant
                k <= cycle@.len(),
                c == text::texts(cycle@),
                edges == graph.edges@,
                diag.infos == old(diag).infos,
                diag.warned() == so_far + step_warnings(edges, c, k as nat),
            decreases cycle@.len() - k,
        {
            let next: usize = if k + 1 == cycle.len() {
                0
            } else {
                k + 1
            };
            let from = cycle[k].as_str();
            let to = cycle[next].as_str();
            assert(from@ == c[k as int] && to@ == follower(c, k as int));
            let ghost was = diag.warned();
            if has_fallback(&graph.edges, from, to) {
                let mut message = "fallback edge ".to_owned();
                message.append(from);
                message.append(" → ");
                message.append(to);
                message.append(" participates in cycle: ");
                message.append(format_round(cycle).as_str());
                diag.add_warning(DiagnosticCategory::FallbackInCycle, message);
            }
            k += 1;
            assert(diag.warned() =~= so_far + step_warnings(edges, c, k as nat));
        }
        i += 1;
        proof {
            assert(every.take(i as int).drop_last() =~= every.take(i - 1));
            assert(every.take(i as int).last() == c);
            assert(diag.warned() =~= warned0 + fallback_warnings(edges, every.take(i as int)));
        }
    }
    assert(every.take(every.len() as int) =~= every);
}

/// Notes every node that no walk from the start reaches.
fn check_unreachable_nodes<N, C>(
    graph: &Graph<N, C>,
    adj: &StringMap<Vec<String>>,
    diag: &mut GraphDiagnostics,
)
    requires
        cycles::adj_model(adj@) == cycles::adjacency(graph.edges@),
    ensures
        final(diag).noted() == old(diag).noted() + unreachable_notes(
            graph.edges@,
            graph.start@,
            node_table::node_names(graph.nodes@),
        ),
        final(diag).warnings == old(diag).warnings,
{
    let seen = reach::reachable_names(graph, adj);
    let ghost names = node_table::node_names(graph.nodes@);
    let ghost noted0 = diag.noted();
    let mut i: usize = 0;
    assert(diag.noted() =~= noted0 + unreachable_notes(graph.edges@, graph.start@, names.take(0)));
    while i < graph.nodes.len()
        invariant
            i <= graph.nodes@.len(),
            names == node_table::node_names(graph.nodes@),
            diag.warnings == old(diag).warnings,
            diag.noted() == noted0 + unreachable_notes(
                graph.edges@,
                graph.start@,
                names.take(i as int),
            ),
            forall|name: Seq<char>| #[trigger]
                text::texts(seen@).contains(name) <==> reach::reachable(
                    graph.edges@,
                    graph.start@,
                    name,
                ),
        decreases graph.nodes@.len() - i,
    {
        let name = graph.nodes.name_at(i);
        if !text::holds_text(&seen, name) {
            let mut message = "node '".to_owned();
            message.append(name);
            message.append("' is not reachable from start node '");
            message.append(graph.start.as_str());
            message.append("'");
            diag.add_info(DiagnosticCategory::Unreachable, message);
        }
        i += 1;
        proof {
            assert(names.take(i as int).drop_last() =~= names.take(i - 1));
            assert(names.take(i as int).last() == name@);
            assert(diag.noted() =~= noted0 + unreachable_notes(
                graph.edges@,
                graph.start@,
                names.take(i as int),
            ));
        }
    }
    assert(names.take(names.len() as int) =~= names);
}

/// Notes edges that leave the end node.
fn check_end_node_outgoing<N, C>(
    graph: &Graph<N, C>,
    adj: &StringMap<Vec<String>>,
    diag: &mut GraphDiagnostics,
)
    requires
        cycles::adj_model(adj@) == cycles::adjacency(graph.edges@),
    ensures
        final(diag).noted() == old(diag).noted() + end_notes(graph.edges@, graph.end@),
        final(diag).warnings == old(diag).warnings,
{
    let ghost noted0 = diag.noted();
    match adj.get(graph.end.as_str()) {
        Some(outgoing) => {
            assert(cycles::adj_model(adj@)[graph.end@] == text::texts(outgoing@));
            assert(cycles::adjacency(graph.edges@).contains_key(graph.end@));
            if outgoing.len() > 0 {
                let mut message = "end node '".to_owned();
                message.append(graph.end.as_str());
                message.append("' has ");
                message.append(text::decimal(outgoing.len() as u64).as_str());
                message.append(" outgoing edge(s) to: ");
                message.append(text::quote_list(outgoing).as_str());
                diag.add_info(DiagnosticCategory::EndNodeOutgoing, message);
            }
        },
        None => {
            proof {
                assert(!cycles::adj_model(adj@).contains_key(graph.end@));
                assert(!cycles::adjacency(graph.edges@).contains_key(graph.end@));
                cycles::lemma_no_successors(graph.edges@, graph.end@);
            }
        },
    }
    assert(diag.noted() =~= noted0 + end_notes(graph.edges@, graph.end@));
}

/// A full diagnosis of a graph.
pub fn analyze_graph<N, C>(graph: &Graph<N, C>) -> (diag: GraphDiagnostics)
    ensures
        diag.warned() == all_warnings(
            graph.edges@,
            cycles::all_cycles(
                cycles::adjacency(graph.edges@),
                node_table::node_names(graph.nodes@),
            ),
        ),
        diag.noted() == all_notes(
            graph.edges@,
            cycles::all_cycles(
                cycles::adjacency(graph.edges@),
                node_table::node_names(graph.nodes@),
            ),
            node_table::node_names(graph.nodes@),
            graph.start@,
            graph.end@,
        ),
{
    let mut diag = GraphDiagnostics::new();
    let adj = cycles::build_adj(graph);
    let all = cycles::find_all_cycles(graph);
    let open_cycles = filter_unprotected_cycles(graph, &all);
    let ghost edges = graph.edges@;
    let ghost every = cycles::lists(all@);
    let ghost lone = cycles::lists(open_cycles@);
    proof {
        assert forall|i: int| 0 <= i < all@.len() implies (#[trigger] all@[i])@.len() >= 1 by {
            assert(every[i] == text::texts(all@[i]@));
            assert(every.contains(every[i]));
            cycles::law_cycles_found(
                cycles::adjacency(edges),
                node_table::node_names(graph.nodes@),
                every[i],
            );
        }
        assert forall|i: int| 0 <= i < open_cycles@.len() implies (#[trigger] open_cycles@[i])@.len()
            >= 1 by {
            assert(lone[i] == text::texts(open_cycles@[i]@));
            assert(lone.contains(lone[i]));
            assert(every.contains(lone[i]));
            cycles::law_cycles_found(
                cycles::adjacency(edges),
                node_table::node_names(graph.nodes@),
                lone[i],
            );
        }
    }
    let mut i: usize = 0;
    assert(diag.warned() =~= cycle_warnings(lone.take(0)));
    while i < open_cycles.len()
        invariant
            i <= open_cycles@.len(),
            lone == cycles::lists(open_cycles@),
            forall|i: int|
                0 <= i < open_cycles@.len() ==> (#[trigger] open_cycles@[i])@.len() >= 1,
            diag.warned() == cycle_warnings(lone.take(i as int)),
            diag.infos@ == Seq::<error::Diagnostic>::empty(),
        decreases open_cycles@.len() - i,
    {
        let cycle = &open_cycles[i];
        let mut message = "cycle detected: ".to_owned();
        message.append(format_round(cycle).as_str());
        assert(message@ =~= "cycle detected: "@ + round_text(lone[i as int]));
        diag.add_warning(DiagnosticCategory::Cycle, message);
        i += 1;
        assert(diag.warned() =~= cycle_warnings(lone.take(i as int)));
    }
    assert(lone.take(lone.len() as int) =~= lone);
    let mut k: usize = 0;
    assert(diag.noted() =~= protected_notes(edges, every.take(0)));
    while k < all.len()
        invariant
            k <= all@.len(),
            edges == graph.edges@,
            every == cycles::lists(all@),
            lone == cycles::lists(open_cycles@),
            is_unprotected(edges, every, lone),
            forall|i: int| 0 <= i < all@.len() ==> (#[trigger] all@[i])@.len() >= 1,
            diag.warned() == cycle_warnings(lone),
            diag.noted() == protected_notes(edges, every.take(k as int)),
        decreases all@.len() - k,
    {
        let cycle = &all[k];
        let ghost c = every[k as int];
        assert(every.contains(c));
        assert(lone.contains(c) <==> !protected(edges, c));
        let ghost was = diag.noted();
        if !holds_list(&open_cycles, cycle) {
            let mut message = "protected cycle: ".to_owned();
            message.append(format_round(cycle).as_str());
            message.append(" (has max_visits)");
            diag.add_info(DiagnosticCategory::Cycle, message);
        }
        k += 1;
        proof {
            assert(every.take(k as int).drop_last() =~= every.take(k - 1));
            assert(every.take(k as int).last() == c);
        }
    }
    assert(every.take(every.len() as int) =~= every);
    check_fallback_in_cycles(graph, &all, &mut diag);
    check_unreachable_nodes(graph, &adj, &mut diag);
    check_end_node_outgoing(graph, &adj, &mut diag);
    diag
}

impl<N, C> Graph<N, C> {
    /// A full diagnosis: cycles, fallback edges on cycles, unreachable nodes,
    /// edges that leave the end node.
    pub fn analyze(&self) -> (diag: GraphDiagnostics)
        ensures
            diag.warned() == all_warnings(
                self.edges@,
                cycles::all_cycles(
                    cycles::adjacency(self.edges@),
                    node_table::node_names(self.nodes@),
                ),
            ),
            diag.noted() == all_notes(
                self.edges@,
                cycles::all_cycles(
                    cycles::adjacency(self.edges@),
                    node_table::node_names(self.nodes@),
                ),
                node_table::node_names(self.nodes@),
                self.start@,
                self.end@,
            ),
    {
        analyze_graph(self)
    }

    /// The cycles of the graph, and which of them have no limit on visits.
    pub fn analyze_cycles(&self) -> (found: CycleAnalysis)
        ensures
            cycles::lists(found.cycles@) == cycles::all_cycles(
                cycles::adjacency(self.edges@),
                node_table::node_names(self.nodes@),
            ),
            found.has_cycles == (found.cycles@.len() > 0),
            cycles::lists(found.unprotected_cycles@) == unprotected(
                self.edges@,
                cycles::lists(found.cycles@),
            ),
            found.total_edges == self.edges@.len(),
            found.protected_edges == limited_count(self.edges@),
            forall|i: int| 0 <= i < found.cycles@.len() ==> (#[trigger] found.cycles@[i])@.len() >= 1,
    {
        let all = cycles::find_all_cycles(self);
        let open_cycles = filter_unprotected_cycles(self, &all);
        let mut limited: usize = 0;
        let mut i: usize = 0;
        while i < self.edges.len()
            invariant
                i <= self.edges@.len(),
                limited <= i,
                limited == limited_count(self.edges@.take(i as int)),
            decreases self.edges@.len() - i,
        {
            if self.edges[i].has_max_visits() {
                limited += 1;
            }
            i += 1;
            assert(self.edges@.take(i as int).drop_last() =~= self.edges@.take(i - 1));
        }
        assert(self.edges@.take(self.edges@.len() as int) =~= self.edges@);
        proof {
            let every = cycles::lists(all@);
            assert forall|i: int| 0 <= i < all@.len() implies (#[trigger] all@[i])@.len() >= 1 by {
                assert(every[i] == text::texts(all@[i]@));
                assert(every.contains(every[i]));
                cycles::law_cycles_found(
                    cycles::adjacency(self.edges@),
                    node_table::node_names(self.nodes@),
                    every[i],
                );
            }
        }
        CycleAnalysis {
            has_cycles: all.len() > 0,
            cycles: all,
            unprotected_cycles: open_cycles,
            total_edges: self.edges.len(),
            protected_edges: limited,
        }
    }
}

/// Lists are strictly ordered: none comes before itself, of two different ones one comes
/// first, and what comes first comes before all that follow. A list comes before those
/// that begin with it, and otherwise the first difference decides.
pub proof fn law_lists_are_ordered(
    a: Seq<Seq<char>>,
    b: Seq<Seq<char>>,
    c: Seq<Seq<char>>,
    x: Seq<char>,
    y: Seq<char>,
)
    ensures
        !list_less(a, a),
        a != b ==> (list_less(a, b) <==> !list_less(b, a)),
        list_less(a, b) && list_less(b, c) ==> list_less(a, c),
        list_less(a, a.push(x)),
        text::text_less(x, y) ==> list_less(a.push(x) + b, a.push(y) + c),
{
    lemma_list_less_irreflexive(a);
    lemma_list_less_connected(a, b);
    if list_less(a, b) && list_less(b, a) {
        lemma_list_less_transitive(a, b, a);
    }
    if list_less(a, b) && list_less(b, c) {
        lemma_list_less_transitive(a, b, c);
    }
    lemma_common_front(a, Seq::empty(), seq![x]);
    assert(a + Seq::<Seq<char>>::empty() =~= a);
    assert(a + seq![x] =~= a.push(x));
    lemma_common_front(a, seq![x] + b, seq![y] + c);
    assert(a + (seq![x] + b) =~= a.push(x) + b);
    assert(a + (seq![y] + c) =~= a.push(y) + c);
    assert((seq![x] + b)[0] == x && (seq![y] + c)[0] == y);
}

proof fn lemma_common_front(a: Seq<Seq<char>>, b: Seq<Seq<char>>, c: Seq<Seq<char>>)
    ensures
        list_less(a + b, a + c) == list_less(b, c),
    decreases a.len(),
{
    if a.len() == 0 {
        assert(a + b =~= b);
        assert(a + c =~= c);
    } else {
        lemma_common_front(a.drop_first(), b, c);
        assert((a + b).drop_first() =~= a.drop_first() + b);
        assert((a + c).drop_first() =~= a.drop_first() + c);
        assert((a + b)[0] == a[0] && (a + c)[0] == a[0]);
    }
}

proof fn inserted(before: Seq<Seq<Seq<char>>>, word: Seq<Seq<char>>) -> (after: Seq<
    Seq<Seq<char>>,
>)
    requires
        ascending(before),
    ensures
        ascending(after),
        forall|c: Seq<Seq<char>>| #[trigger]
            after.contains(c) <==> before.contains(c) || c == word,
    decreases before.len(),
{
    if before.contains(word) {
        before
    } else if before.len() == 0 || list_less(before.last(), word) {
        let after = before.push(word);
        assert forall|i: int, j: int| 0 <= i < j < after.len() implies list_less(
            #[trigger] after[i],
            #[trigger] after[j],
        ) by {
            if j < before.len() {
                assert(list_less(before[i], before[j]));
            } else if i < before.len() - 1 {
                assert(list_less(before[i], before[before.len() - 1]));
                lemma_list_less_transitive(before[i], before.last(), word);
            }
        }
        assert forall|c: Seq<Seq<char>>| #[trigger] after.contains(c) <==> before.contains(c) || c
            == word by {
            if before.contains(c) {
                assert(after[before.index_of(c)] == c);
            }
            assert(after[before.len() as int] == word);
            if after.contains(c) {
                let k = after.index_of(c);
                if k < before.len() {
                    assert(before[k] == c);
                }
            }
        }
        after
    } else {
        let front = before.drop_last();
        let last = before.last();
        assert(ascending(front)) by {
            assert forall|i: int, j: int| 0 <= i < j < front.len() implies list_less(
                #[trigger] front[i],
                #[trigger] front[j],
            ) by {
                assert(list_less(before[i], before[j]));
            }
        }
        let inner = inserted(front, word);
        let after = inner.push(last);
        assert(before[before.len() - 1] == last);
        assert(before.contains(last));
        lemma_list_less_connected(word, last);
        assert forall|i: int, j: int| 0 <= i < j < after.len() implies list_less(
            #[trigger] after[i],
            #[trigger] after[j],
        ) by {
            if j < inner.len() {
                assert(list_less(inner[i], inner[j]));
            } else {
                assert(inner.contains(inner[i]));
                if inner[i] != word {
                    let k = front.index_of(inner[i]);
                    assert(list_less(before[k], before[before.len() - 1]));
                }
            }
        }
        assert forall|c: Seq<Seq<char>>| #[trigger] after.contains(c) <==> before.contains(c) || c
            == word by {
            assert(inner.contains(c) <==> front.contains(c) || c == word);
            if front.contains(c) {
                assert(before[front.index_of(c)] == c);
            }
            if before.contains(c) {
                let k = before.index_of(c);
                if k < front.len() {
                    assert(front[k] == c);
                }
            }
            if inner.contains(c) {
                assert(after[inner.index_of(c)] == c);
            }
            assert(after[inner.len() as int] == last);
            if after.contains(c) {
                let k = after.index_of(c);
                if k < inner.len() {
                    assert(inner[k] == c);
                }
            }
        }
        after
    }
}

proof fn lemma_unprotected<C>(edges: Seq<Edge<C>>, all: Seq<Seq<Seq<char>>>) -> (list: Seq<
    Seq<Seq<char>>,
>)
    ensures
        is_unprotected(edges, all, list),
        is_unprotected(edges, all, unprotected(edges, all)),
    decreases all.len(),
{
    if all.len() == 0 {
        let list = Seq::<Seq<Seq<char>>>::empty();
        assert(is_unprotected(edges, all, list));
        list
    } else {
        let front = all.drop_last();
        let word = all.last();
        let inner = lemma_unprotected(edges, front);
        let list = if protected(edges, word) {
            inner
        } else {
            inserted(inner, word)
        };
        assert forall|c: Seq<Seq<char>>| #[trigger] list.contains(c) <==> all.contains(c)
            && !protected(edges, c) by {
            assert(inner.contains(c) <==> front.contains(c) && !protected(edges, c));
            if front.contains(c) {
                assert(all[front.index_of(c)] == c);
            }
            assert(all[all.len() - 1] == word);
            if all.contains(c) {
                let k = all.index_of(c);
                if k < front.len() {
                    assert(front[k] == c);
                }
            }
        }
        assert(is_unprotected(edges, all, list));
        list
    }
}

/// A limit on any edge of a cycle protects it, the one from the last name to the first
/// like every other; and without a limit on any of its edges a cycle is unprotected.
pub proof fn law_limits_protect<C>(
    edges: Seq<Edge<C>>,
    all: Seq<Seq<Seq<char>>>,
    c: Seq<Seq<char>>,
    i: int,
    k: int,
)
    ensures
        0 <= i < c.len() && 0 <= k < edges.len() && edges[k].from@ == c[i] && edges[k].to@ == c[(i
            + 1) % (c.len() as int)] && edges[k].analysis is Some
            && edges[k].analysis->0.max_visits is Some ==> protected(edges, c) && !unprotected(
            edges,
            all,
        ).contains(c),
        all.contains(c) && (forall|m: int, n: int|
            0 <= m < c.len() && 0 <= n < edges.len() && #[trigger] edges[n].from@ == #[trigger] c[m]
                && edges[n].to@ == c[(m + 1) % (c.len() as int)] ==> !(edges[n].analysis is Some
                && edges[n].analysis->0.max_visits is Some)) ==> unprotected(edges, all).contains(
            c,
        ),
        unprotected(edges, all).contains(c) ==> all.contains(c),
        unprotected(edges, all).no_duplicates(),
{
    let list = lemma_unprotected(edges, all);
    let un = unprotected(edges, all);
    if 0 <= i < c.len() {
        lemma_follower(c, i);
        if 0 <= k < edges.len() && edges[k].from@ == c[i] && edges[k].to@ == follower(c, i)
            && edges[k].limited() {
            assert(limits(edges[k], c, i));
        }
    }
    if all.contains(c) && protected(edges, c) {
        let (m, n) = choose|m: int, n: int|
            0 <= m < c.len() && 0 <= n < edges.len() && #[trigger] limits(edges[n], c, m);
        lemma_follower(c, m);
        assert(edges[n].from@ == c[m]);
    }
    assert forall|x: int, y: int| 0 <= x < un.len() && 0 <= y < un.len() && x != y implies un[x]
        != un[y] by {
        if x < y {
            assert(list_less(un[x], un[y]));
        } else {
            assert(list_less(un[y], un[x]));
        }
        lemma_list_less_irreflexive(un[x]);
    }
}

proof fn lemma_follower(c: Seq<Seq<char>>, i: int)
    requires
        0 <= i < c.len(),
    ensures
        follower(c, i) == c[(i + 1) % (c.len() as int)],
{
    if i + 1 == c.len() {
        assert((i + 1) % (c.len() as int) == 0) by (nonlinear_arith)
            requires
                0 <= i,
                i + 1 == c.len(),
        ;
    } else {
        assert((i + 1) % (c.len() as int) == i + 1) by (nonlinear_arith)
            requires
                0 <= i + 1 < c.len(),
        ;
    }
}

/// It does not matter with which of its names a cycle begins: turned by one name, it is
/// protected exactly if it was.
pub proof fn law_protection_does_not_turn<C>(edges: Seq<Edge<C>>, c: Seq<Seq<char>>)
    requires
        c.len() > 0,
    ensures
        protected(edges, c.drop_first().push(c[0])) == protected(edges, c),
{
    let d = c.drop_first().push(c[0]);
    let n = c.len() as int;
    if protected(edges, c) {
        let (i, k) = choose|i: int, k: int|
            0 <= i < c.len() && 0 <= k < edges.len() && #[trigger] limits(edges[k], c, i);
        let j = if i == 0 {
            n - 1
        } else {
            i - 1
        };
        assert(d[j] == c[i]);
        assert(follower(d, j) == follower(c, i));
        assert(limits(edges[k], d, j));
    }
    if protected(edges, d) {
        let (j, k) = choose|j: int, k: int|
            0 <= j < d.len() && 0 <= k < edges.len() && #[trigger] limits(edges[k], d, j);
        let i = if j == n - 1 {
            0int
        } else {
            j + 1
        };
        assert(d[j] == c[i]);
        assert(follower(d, j) == follower(c, i));
        assert(limits(edges[k], c, i));
    }
}

/// The edges with a limit are counted one by one.
pub proof fn law_limits_are_counted<C>(a: Seq<Edge<C>>, b: Seq<Edge<C>>, e: Edge<C>)
    ensures
        limited_count(a + b) == limited_count(a) + limited_count(b),
        limited_count(seq![e]) == (if e.analysis is Some && e.analysis->0.max_visits is Some {
            1nat
        } else {
            0nat
        }),
    decreases b.len(),
{
    assert(limited_count(seq![e].drop_last()) == 0);
    if b.len() == 0 {
        assert(a + b =~= a);
    } else {
        assert((a + b).drop_last() =~= a + b.drop_last());
        law_limits_are_counted(a, b.drop_last(), e);
    }
}

/// Every unprotected cycle is one warning, in order, and every protected one is one note
/// that is no warning.
pub proof fn law_cycles_are_diagnosed<C>(
    edges: Seq<Edge<C>>,
    a: Seq<Seq<Seq<char>>>,
    b: Seq<Seq<Seq<char>>>,
    c: Seq<Seq<char>>,
)
    ensures
        cycle_warnings(a).len() == a.len(),
        forall|i: int|
            0 <= i < a.len() ==> (#[trigger] cycle_warnings(a)[i]).severity is Warning
                && cycle_warnings(a)[i].category is Cycle && cycle_warnings(a)[i].message
                == "cycle detected: "@ + text::joined(a[i], " → "@) + " → "@ + a[i][0],
        protected_notes(edges, a + b) == protected_notes(edges, a) + protected_notes(edges, b),
        protected_notes(edges, seq![c]).len() == (if protected(edges, c) {
            1nat
        } else {
            0nat
        }),
        protected(edges, c) ==> protected_notes(edges, seq![c])[0].severity is Info
            && protected_notes(edges, seq![c])[0].category is Cycle,
    decreases b.len(),
{
    assert(protected_notes(edges, seq![c].drop_last()) =~= Seq::empty());
    if b.len() == 0 {
        assert(a + b =~= a);
        assert(protected_notes(edges, a + b) =~= protected_notes(edges, a) + protected_notes(
            edges,
            b,
        ));
    } else {
        assert((a + b).drop_last() =~= a + b.drop_last());
        law_cycles_are_diagnosed(edges, a, b.drop_last(), c);
        assert(protected_notes(edges, a + b) =~= protected_notes(edges, a) + protected_notes(
            edges,
            b,
        ));
    }
}

/// A fallback edge on a cycle is warned of, the one from the last name to the first like
/// every other; a cycle without one is not. The warnings of several cycles are those of
/// each, in order.
pub proof fn law_fallbacks_are_warned_of<C>(
    edges: Seq<Edge<C>>,
    a: Seq<Seq<Seq<char>>>,
    b: Seq<Seq<Seq<char>>>,
    c: Seq<Seq<char>>,
    i: int,
    k: int,
)
    ensures
        fallback_warnings(edges, a + b) == fallback_warnings(edges, a) + fallback_warnings(edges, b),
        0 <= i < c.len() && 0 <= k < edges.len() && edges[k].fallback && edges[k].from@ == c[i]
            && edges[k].to@ == c[(i + 1) % (c.len() as int)] ==> fallback_warnings(
            edges,
            seq![c],
        ).len() > 0,
        (forall|n: int| 0 <= n < edges.len() ==> !(#[trigger] edges[n]).fallback)
            ==> fallback_warnings(edges, seq![c]).len() == 0,
        fallback_warnings(edges, seq![c]).len() <= c.len(),
        forall|n: int|
            0 <= n < fallback_warnings(edges, seq![c]).len() ==> (#[trigger] fallback_warnings(
                edges,
                seq![c],
            )[n]).severity is Warning && fallback_warnings(edges, seq![c])[n].category is FallbackInCycle,
    decreases b.len(),
{
    let one = seq![c];
    assert(fallback_warnings(edges, one.drop_last()) =~= Seq::empty());
    assert(fallback_warnings(edges, one) =~= step_warnings(edges, c, c.len()));
    lemma_steps(edges, c, c.len(), i, k);
    if b.len() == 0 {
        assert(a + b =~= a);
        assert(fallback_warnings(edges, a + b) =~= fallback_warnings(edges, a) + fallback_warnings(
            edges,
            b,
        ));
    } else {
        assert((a + b).drop_last() =~= a + b.drop_last());
        law_fallbacks_are_warned_of(edges, a, b.drop_last(), c, i, k);
        assert(fallback_warnings(edges, a + b) =~= fallback_warnings(edges, a) + fallback_warnings(
            edges,
            b,
        ));
    }
}

proof fn lemma_steps<C>(edges: Seq<Edge<C>>, c: Seq<Seq<char>>, n: nat, i: int, k: int)
    requires
        n <= c.len(),
    ensures
        0 <= i < n && 0 <= k < edges.len() && edges[k].fallback && edges[k].from@ == c[i]
            && edges[k].to@ == c[(i + 1) % (c.len() as int)] ==> step_warnings(edges, c, n).len()
            > 0,
        (forall|m: int| 0 <= m < edges.len() ==> !(#[trigger] edges[m]).fallback) ==> step_warnings(
            edges,
            c,
            n,
        ).len() == 0,
        step_warnings(edges, c, n).len() <= n,
        forall|m: int|
            0 <= m < step_warnings(edges, c, n).len() ==> (#[trigger] step_warnings(
                edges,
                c,
                n,
            )[m]).severity is Warning && step_warnings(edges, c, n)[m].category is FallbackInCycle,
    decreases n,
{
    if n > 0 {
        lemma_steps(edges, c, (n - 1) as nat, i, k);
        lemma_follower(c, n - 1);
        if i == n - 1 && 0 <= k < edges.len() && edges[k].fallback && edges[k].from@ == c[i]
            && edges[k].to@ == follower(c, i) {
            assert(falls_back(edges, c[i], follower(c, i)));
        }
    }
}

/// A node is noted as unreachable exactly if no walk from the start leads to it; the
/// notes on several nodes are those on each, in order.
pub proof fn law_unreachable_nodes_are_noted<C>(
    edges: Seq<Edge<C>>,
    start: Seq<char>,
    a: Seq<Seq<char>>,
    b: Seq<Seq<char>>,
    name: Seq<char>,
)
    ensures
        unreachable_notes(edges, start, a + b) == unreachable_notes(edges, start, a)
            + unreachable_notes(edges, start, b),
        unreachable_notes(edges, start, seq![name]).len() == (if reach::reachable(
            edges,
            start,
            name,
        ) {
            0nat
        } else {
            1nat
        }),
        !reach::reachable(edges, start, name) ==> unreachable_notes(
            edges,
            start,
            seq![name],
        )[0].category is Unreachable && unreachable_notes(edges, start, seq![name])[0].severity is Info,
    decreases b.len(),
{
    assert(unreachable_notes(edges, start, seq![name].drop_last()) =~= Seq::empty());
    if b.len() == 0 {
        assert(a + b =~= a);
        assert(unreachable_notes(edges, start, a + b) =~= unreachable_notes(edges, start, a)
            + unreachable_notes(edges, start, b));
    } else {
        assert((a + b).drop_last() =~= a + b.drop_last());
        law_unreachable_nodes_are_noted(edges, start, a, b.drop_last(), name);
        assert(unreachable_notes(edges, start, a + b) =~= unreachable_notes(edges, start, a)
            + unreachable_notes(edges, start, b));
    }
}

/// The end node is noted exactly if an edge leaves it.
pub proof fn law_edges_out_of_the_end_are_noted<C>(edges: Seq<Edge<C>>, end: Seq<char>)
    ensures
        end_notes(edges, end).len() == (if exists|i: int|
            0 <= i < edges.len() && (#[trigger] edges[i]).from@ == end {
            1nat
        } else {
            0nat
        }),
        end_notes(edges, end).len() > 0 ==> end_notes(edges, end)[0].category is EndNodeOutgoing
            && end_notes(edges, end)[0].severity is Info,
{
    let out = cycles::successors(edges, end);
    if exists|i: int| 0 <= i < edges.len() && (#[trigger] edges[i]).from@ == end {
        let i = choose|i: int| 0 <= i < edges.len() && (#[trigger] edges[i]).from@ == end;
        cycles::law_followers_follow_edges(edges, end, edges[i].to@);
    } else {
        assert(!graph_core::has_exit(edges, end));
        cycles::lemma_no_successors(edges, end);
    }
}

/// A diagnosis warns exactly where a cycle has no limit or a fallback lies on a cycle, and
/// notes the protected cycles, the unreachable nodes and the edges out of the end.
pub proof fn law_diagnosis_is_complete<C>(
    edges: Seq<Edge<C>>,
    all: Seq<Seq<Seq<char>>>,
    names: Seq<Seq<char>>,
    start: Seq<char>,
    end: Seq<char>,
    f: Finding,
)
    ensures
        all_warnings(edges, all).contains(f) <==> cycle_warnings(unprotected(edges, all)).contains(
            f,
        ) || fallback_warnings(edges, all).contains(f),
        all_warnings(edges, all).len() == unprotected(edges, all).len() + fallback_warnings(
            edges,
            all,
        ).len(),
        all_notes(edges, all, names, start, end).contains(f) <==> protected_notes(
            edges,
            all,
        ).contains(f) || unreachable_notes(edges, start, names).contains(f) || end_notes(
            edges,
            end,
        ).contains(f),
        all_notes(edges, all, names, start, end).len() == protected_notes(edges, all).len()
            + unreachable_notes(edges, start, names).len() + end_notes(edges, end).len(),
{
    let a = cycle_warnings(unprotected(edges, all));
    let b = fallback_warnings(edges, all);
    lemma_in_either(a, b, f);
    let x = protected_notes(edges, all);
    let y = unreachable_notes(edges, start, names);
    let z = end_notes(edges, end);
    lemma_in_either(x, y, f);
    lemma_in_either(x + y, z, f);
}

proof fn lemma_in_either<A>(a: Seq<A>, b: Seq<A>, x: A)
    ensures
        (a + b).contains(x) <==> a.contains(x) || b.contains(x),
{
    let all = a + b;
    if a.contains(x) {
        assert(all[a.index_of(x)] == x);
    }
    if b.contains(x) {
        assert(all[a.len() + b.index_of(x)] == x);
    }
    if all.contains(x) {
        let k = all.index_of(x);
        if k < a.len() {
            assert(a[k] == x);
        } else {
            assert(b[k - a.len()] == x);
        }
    }
}

/// The report has two lines for each cycle, in order, and the second tells a cycle among
/// the unprotected ones from the others.
pub proof fn law_reports_have_every_cycle(
    all: Seq<Seq<Seq<char>>>,
    unprotected: Seq<Seq<Seq<char>>>,
    i: int,
)
    requires
        0 <= i < all.len(),
    ensures
        cycle_lines(all, unprotected).len() == 2 * all.len(),
        cycle_lines(all, unprotected)[2 * i] == "  Cycle "@ + text::decimal_text((i + 1) as nat)
            + ": "@ + text::joined(all[i], " → "@) + " → "@ + all[i][0],
        unprotected.contains(all[i]) ==> cycle_lines(all, unprotected)[2 * i + 1]
            == "    ⚠️ UNPROTECTED — no max_visits on back-edge"@,
        !unprotected.contains(all[i]) ==> cycle_lines(all, unprotected)[2 * i + 1]
            == "    ✅ Protected by edge-level analysis"@,
    decreases all.len(),
{
    let front = all.drop_last();
    if front.len() > 0 {
        law_reports_have_every_cycle(
            front,
            unprotected,
            if i < front.len() {
                i
            } else {
                0
            },
        );
    } else {
        assert(cycle_lines(front, unprotected).len() == 0);
    }
    if i == front.len() {
        assert(all[i] == all.last());
        assert("  Cycle "@ + text::decimal_text(all.len()) + ": "@ + round_text(all.last())
            =~= "  Cycle "@ + text::decimal_text((i + 1) as nat) + ": "@ + text::joined(
            all[i],
            " → "@,
        ) + " → "@ + all[i][0]);
    }
}

/// Each warning on a fallback is for a fallback edge that leads from one name of the cycle to
/// the next, the last being followed by the first, and names both ends and the cycle; and
/// there is one for each such place of the cycle.
pub proof fn law_fallback_warnings_name_the_edge<C>(
    edges: Seq<Edge<C>>,
    c: Seq<Seq<char>>,
    i: int,
    k: int,
    n: int,
)
    ensures
        0 <= i < c.len() && 0 <= k < edges.len() && edges[k].fallback && edges[k].from@ == c[i]
            && edges[k].to@ == c[(i + 1) % (c.len() as int)] ==> fallback_warnings(
            edges,
            seq![c],
        ).contains(
            Finding {
                severity: DiagnosticSeverity::Warning,
                category: DiagnosticCategory::FallbackInCycle,
                message: "fallback edge "@ + c[i] + " → "@ + c[(i + 1) % (c.len() as int)]
                    + " participates in cycle: "@ + (text::joined(c, " → "@) + " → "@ + c[0]),
            },
        ),
        0 <= n < fallback_warnings(edges, seq![c]).len() ==> exists|j: int, m: int|
            0 <= j < c.len() && 0 <= m < edges.len() && edges[m].fallback
                && #[trigger] edges[m].from@ == #[trigger] c[j] && edges[m].to@ == c[(j + 1) % (
            c.len() as int)] && fallback_warnings(edges, seq![c])[n].message == "fallback edge "@
                + c[j] + " → "@ + c[(j + 1) % (c.len() as int)] + " participates in cycle: "@ + (
            text::joined(c, " → "@) + " → "@ + c[0]),
{
    let one = seq![c];
    assert(fallback_warnings(edges, one.drop_last()) =~= Seq::empty());
    assert(fallback_warnings(edges, one) =~= step_warnings(edges, c, c.len()));
    lemma_steps_named(edges, c, c.len(), i, k, n);
}

proof fn lemma_steps_named<C>(
    edges: Seq<Edge<C>>,
    c: Seq<Seq<char>>,
    upto: nat,
    i: int,
    k: int,
    n: int,
)
    requires
        upto <= c.len(),
    ensures
        0 <= i < upto && 0 <= k < edges.len() && edges[k].fallback && edges[k].from@ == c[i]
            && edges[k].to@ == c[(i + 1) % (c.len() as int)] ==> step_warnings(
            edges,
            c,
            upto,
        ).contains(
            Finding {
                severity: DiagnosticSeverity::Warning,
                category: DiagnosticCategory::FallbackInCycle,
                message: "fallback edge "@ + c[i] + " → "@ + c[(i + 1) % (c.len() as int)]
                    + " participates in cycle: "@ + (text::joined(c, " → "@) + " → "@ + c[0]),
            },
        ),
        0 <= n < step_warnings(edges, c, upto).len() ==> exists|j: int, m: int|
            0 <= j < upto && 0 <= m < edges.len() && edges[m].fallback
                && #[trigger] edges[m].from@ == #[trigger] c[j] && edges[m].to@ == c[(j + 1) % (
            c.len() as int)] && step_warnings(edges, c, upto)[n].message == "fallback edge "@
                + c[j] + " → "@ + c[(j + 1) % (c.len() as int)] + " participates in cycle: "@ + (
            text::joined(c, " → "@) + " → "@ + c[0]),
    decreases upto,
{
    if upto > 0 {
        let last = upto - 1;
        let before = step_warnings(edges, c, last as nat);
        let now = step_warnings(edges, c, upto);
        lemma_steps_named(edges, c, last as nat, i, k, n);
        lemma_follower(c, last);
        assert forall|f: Finding| before.contains(f) implies #[trigger] now.contains(f) by {
            let at = before.index_of(f);
            assert(now[at] == f);
        }
        if falls_back(edges, c[last], follower(c, last)) {
            assert(now[before.len() as int] == now.last());
            if n == before.len() {
                let m = choose|m: int|
                    0 <= m < edges.len() && (#[trigger] edges[m]).fallback && edges[m].from@
                        == c[last] && edges[m].to@ == follower(c, last);
                assert(edges[m].from@ == c[last]);
            }
        }
        if i == last && 0 <= k < edges.len() && edges[k].fallback && edges[k].from@ == c[i]
            && edges[k].to@ == follower(c, i) {
            assert(falls_back(edges, c[i], follower(c, i)));
            assert(now.contains(now.last()));
        }
    }
}

/// Notes say what they are about: a protected cycle in full, a node that cannot be reached
/// and the start that it cannot be reached from, and the end node with where its edges go.
pub proof fn law_notes_name_their_subject<C>(
    edges: Seq<Edge<C>>,
    c: Seq<Seq<char>>,
    start: Seq<char>,
    end: Seq<char>,
    name: Seq<char>,
)
    ensures
        protected(edges, c) ==> protected_notes(edges, seq![c])[0].message == "protected cycle: "@
            + (text::joined(c, " → "@) + " → "@ + c[0]) + " (has max_visits)"@,
        !reach::reachable(edges, start, name) ==> unreachable_notes(
            edges,
            start,
            seq![name],
        )[0].message == "node '"@ + name + "' is not reachable from start node '"@ + start + "'"@,
        cycles::successors(edges, end).len() > 0 ==> end_notes(edges, end)[0].message
            == "end node '"@ + end + "' has "@ + text::decimal_text(
            cycles::successors(edges, end).len(),
        ) + " outgoing edge(s) to: "@ + text::quoted_list(cycles::successors(edges, end)),
{
    assert(protected_notes(edges, seq![c].drop_last()) =~= Seq::empty());
    assert(unreachable_notes(edges, start, seq![name].drop_last()) =~= Seq::empty());
}

/// The report counts the cycles, the edges with a limit and all edges, and advises to set
/// limits exactly if a cycle is unprotected. Without cycles it has two lines.
pub proof fn law_reports_count(a: CycleAnalysis)
    ensures
        a.report_lines().len() >= 2,
        a.report_lines()[0] == "=== Graph Cycle Analysis ==="@,
        !a.has_cycles ==> a.report_lines().len() == 2 && a.report_lines()[1]
            == "No cycles detected — graph is a DAG."@,
        a.has_cycles ==> {
            &&& a.report_lines()[1] == "Found "@ + text::decimal_text(a.cycles@.len())
                + " cycle(s)."@
            &&& a.report_lines()[2] == "Edge protection: "@ + text::decimal_text(
                a.protected_edges as nat,
            ) + "/"@ + text::decimal_text(a.total_edges as nat) + " edges have analysis set."@
            &&& a.report_lines().len() == 3 + 2 * a.cycles@.len() + (if a.unprotected_cycles@.len()
                == 0 {
                0int
            } else {
                2int
            })
            &&& a.unprotected_cycles@.len() > 0 ==> a.report_lines().last()
                == "⚠️ Recommendation: Set analysis.max_visits on back-edges."@
        },
{
    let all = cycles::lists(a.cycles@);
    let some = cycles::lists(a.unprotected_cycles@);
    if all.len() > 0 {
        law_reports_have_every_cycle(all, some, 0);
    }
}

} // verus!
