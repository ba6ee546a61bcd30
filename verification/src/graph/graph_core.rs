//! The graph and its edges.
//!
//! An edge is conditional, normal or a fallback. From a node, the first
//! conditional edge whose condition holds is taken; without one, the first normal
//! edge; without one, the first fallback edge.

use vstd::prelude::*;

use crate::error::{GraphError, TerminalError};
use crate::graph::hash;
use crate::graph::node_table;
use crate::graph::node_table::NodeTable;
use crate::text;

verus! {

/// What the analysis of a graph may take for granted of an edge. It plays no part
/// in a run.
#[derive(Clone, Copy, PartialEq, Eq, Structural, Debug)]
pub struct EdgeAnalysis {
    /// How often the edge should be taken at most.
    pub max_visits: Option<usize>,
}

/// An edge. `C` is the type of conditions.
pub struct Edge<C> {
    pub from: String,
    pub to: String,
    /// The condition of a conditional edge.
    pub condition: Option<C>,
    pub analysis: Option<EdgeAnalysis>,
    /// Whether the edge is the last resort.
    pub fallback: bool,
}

impl<C> Edge<C> {
    /// The edge has a condition and is no fallback.
    pub open spec fn conditional(self) -> bool {
        self.condition is Some && !self.fallback
    }

    /// The edge has no condition and is no fallback.
    pub open spec fn normal(self) -> bool {
        self.condition is None && !self.fallback
    }

    /// A limit on visits is set.
    pub open spec fn limited(self) -> bool {
        self.analysis matches Some(a) && a.max_visits is Some
    }

    /// Whether the edge is conditional.
    pub fn is_conditional(&self) -> (r: bool)
        ensures
            r == self.conditional(),
    {
        self.condition.is_some() && !self.fallback
    }

    /// Whether the edge is normal.
    pub fn is_normal(&self) -> (r: bool)
        ensures
            r == self.normal(),
    {
        self.condition.is_none() && !self.fallback
    }

    /// Whether a limit on visits is set.
    pub fn has_max_visits(&self) -> (r: bool)
        ensures
            r == self.limited(),
    {
        match &self.analysis {
            Some(a) => a.max_visits.is_some(),
            None => false,
        }
    }
}

/// The edges that leave a node, in order.
pub open spec fn edges_leaving<C>(edges: Seq<Edge<C>>, node: Seq<char>) -> Seq<Edge<C>> {
    edges.filter(leaves(node))
}

/// The edge leaves a node.
pub open spec fn leaves<C>(node: Seq<char>) -> spec_fn(Edge<C>) -> bool {
    |e: Edge<C>| e.from@ == node
}

/// The first edge with a property.
pub open spec fn first_edge<C>(edges: Seq<Edge<C>>, p: spec_fn(Edge<C>) -> bool) -> Option<Edge<C>>
    decreases edges.len(),
{
    if edges.len() == 0 {
        None
    } else if p(edges[0]) {
        Some(edges[0])
    } else {
        first_edge(edges.drop_first(), p)
    }
}

/// A normal edge out of a node.
pub open spec fn normal_from<C>(node: Seq<char>) -> spec_fn(Edge<C>) -> bool {
    |e: Edge<C>| e.from@ == node && e.normal()
}

/// A fallback edge out of a node.
pub open spec fn fallback_from<C>(node: Seq<char>) -> spec_fn(Edge<C>) -> bool {
    |e: Edge<C>| e.from@ == node && e.fallback
}

/// An edge between two nodes.
pub open spec fn between<C>(from: Seq<char>, to: Seq<char>) -> spec_fn(Edge<C>) -> bool {
    |e: Edge<C>| e.from@ == from && e.to@ == to
}

/// Where the first normal edge out of a node leads, or else the first fallback.
pub open spec fn default_target<C>(edges: Seq<Edge<C>>, node: Seq<char>) -> Option<Seq<char>> {
    match first_edge(edges, normal_from(node)) {
        Some(e) => Some(e.to@),
        None => match first_edge(edges, fallback_from(node)) {
            Some(e) => Some(e.to@),
            None => None,
        },
    }
}

/// The edge is a conditional edge out of a node.
pub open spec fn guards<C>(e: Edge<C>, node: Seq<char>) -> bool {
    e.from@ == node && e.conditional()
}

/// The edge's condition may answer `answer` on a state.
pub open spec fn answers<S, C: Fn(&S) -> bool>(e: Edge<C>, state: &S, answer: bool) -> bool {
    call_ensures(e.condition->0, (state,), answer)
}

/// The edge's condition may be asked on a state.
pub open spec fn askable<S, C: Fn(&S) -> bool>(e: Edge<C>, state: &S) -> bool {
    call_requires(e.condition->0, (state,))
}

/// No conditional edge out of the node that stands before position `end` holds.
pub open spec fn none_holds<S, C: Fn(&S) -> bool>(
    edges: Seq<Edge<C>>,
    node: Seq<char>,
    state: &S,
    end: int,
) -> bool {
    forall|j: int|
        0 <= j < end && guards(#[trigger] edges[j], node) ==> answers(edges[j], state, false)
}

/// The edge at position `i` is the first conditional edge out of the node that holds.
pub open spec fn first_to_hold<S, C: Fn(&S) -> bool>(
    edges: Seq<Edge<C>>,
    node: Seq<char>,
    state: &S,
    i: int,
) -> bool {
    &&& 0 <= i < edges.len()
    &&& guards(edges[i], node)
    &&& answers(edges[i], state, true)
    &&& none_holds(edges, node, state, i)
}

/// Routing: where a run goes from a node in a state, `None` if no edge applies.
pub open spec fn routes<S, C: Fn(&S) -> bool>(
    edges: Seq<Edge<C>>,
    node: Seq<char>,
    state: &S,
    target: Option<Seq<char>>,
) -> bool {
    ||| exists|i: int| #[trigger]
        first_to_hold(edges, node, state, i) && target == Some(edges[i].to@)
    ||| none_holds(edges, node, state, edges.len() as int) && target == default_target(edges, node)
}

/// Every condition on an edge out of a node may be asked.
pub open spec fn all_askable<S, C: Fn(&S) -> bool>(
    edges: Seq<Edge<C>>,
    node: Seq<char>,
    state: &S,
) -> bool {
    forall|i: int|
        0 <= i < edges.len() && guards(#[trigger] edges[i], node) ==> askable(edges[i], state)
}

/// The condition's answer on a state is settled.
pub open spec fn settled<S, C: Fn(&S) -> bool>(e: Edge<C>, state: &S, answer: bool) -> bool {
    forall|b: bool| #[trigger] answers(e, state, b) ==> b == answer
}

/// Conditions go first, in the order of the edges: where a condition can only
/// hold and every conditional edge before it can only fail, that edge is taken,
/// whatever other edges leave the node.
pub proof fn law_first_match_wins<S, C: Fn(&S) -> bool>(
    edges: Seq<Edge<C>>,
    node: Seq<char>,
    state: &S,
    i: int,
    target: Option<Seq<char>>,
)
    requires
        routes(edges, node, state, target),
        0 <= i < edges.len(),
        guards(edges[i], node),
        settled(edges[i], state, true),
        forall|j: int| 0 <= j < i && guards(#[trigger] edges[j], node) ==> settled(
            edges[j],
            state,
            false,
        ),
    ensures
        target == Some(edges[i].to@),
{
    if none_holds(edges, node, state, edges.len() as int) {
        assert(answers(edges[i], state, false));
    } else {
        let k = choose|k: int| #[trigger]
            first_to_hold(edges, node, state, k) && target == Some(edges[k].to@);
        if k < i {
            assert(answers(edges[k], state, true));
        } else if k > i {
            assert(answers(edges[i], state, false));
        }
    }
}

/// Where no condition can hold, a normal edge is taken before any fallback, and a
/// fallback before giving up.
pub proof fn law_default_order<S, C: Fn(&S) -> bool>(
    edges: Seq<Edge<C>>,
    node: Seq<char>,
    state: &S,
    target: Option<Seq<char>>,
)
    requires
        routes(edges, node, state, target),
        forall|j: int| 0 <= j < edges.len() && guards(#[trigger] edges[j], node) ==> settled(
            edges[j],
            state,
            false,
        ),
    ensures
        (exists|j: int| 0 <= j < edges.len() && (#[trigger] edges[j]).from@ == node
            && edges[j].normal()) ==> exists|j: int|
            0 <= j < edges.len() && (#[trigger] edges[j]).from@ == node && edges[j].normal()
                && target == Some(edges[j].to@),
        (forall|j: int| 0 <= j < edges.len() && (#[trigger] edges[j]).from@ == node
            ==> !edges[j].normal()) && (exists|j: int|
            0 <= j < edges.len() && (#[trigger] edges[j]).from@ == node && edges[j].fallback)
            ==> exists|j: int|
            0 <= j < edges.len() && (#[trigger] edges[j]).from@ == node && edges[j].fallback
                && target == Some(edges[j].to@),
        target is None <==> forall|j: int|
            0 <= j < edges.len() && (#[trigger] edges[j]).from@ == node ==> edges[j].conditional(),
{
    assert(target == default_target(edges, node)) by {
        if exists|k: int| #[trigger] first_to_hold(edges, node, state, k) {
            let k = choose|k: int| #[trigger] first_to_hold(edges, node, state, k);
            assert(answers(edges[k], state, true));
        }
    }
    lemma_first_edge(edges, normal_from(node));
    lemma_first_edge(edges, fallback_from(node));
}

/// An edge with a condition that can only hold is taken before every edge without one,
/// and before every later one with a condition; only an earlier one whose condition may
/// hold, and that is no fallback, could come before it.
pub proof fn law_condition_decides<S, C: Fn(&S) -> bool>(
    edges: Seq<Edge<C>>,
    node: Seq<char>,
    state: &S,
    i: int,
    target: Option<Seq<char>>,
)
    requires
        routes(edges, node, state, target),
        0 <= i < edges.len(),
        edges[i].from@ == node,
        !edges[i].fallback,
        edges[i].condition is Some,
        forall|b: bool| call_ensures(edges[i].condition->0, (state,), b) ==> b,
        forall|j: int, b: bool|
            0 <= j < i && (#[trigger] edges[j]).from@ == node && !edges[j].fallback
                && edges[j].condition is Some && #[trigger] call_ensures(
                edges[j].condition->0,
                (state,),
                b,
            ) ==> !b,
    ensures
        target == Some(edges[i].to@),
{
    assert(guards(edges[i], node));
    if none_holds(edges, node, state, edges.len() as int) {
        assert(answers(edges[i], state, false));
        assert(call_ensures(edges[i].condition->0, (state,), false));
    } else {
        let k = choose|k: int| #[trigger]
            first_to_hold(edges, node, state, k) && target == Some(edges[k].to@);
        if k < i {
            assert(call_ensures(edges[k].condition->0, (state,), true));
        } else if k > i {
            assert(answers(edges[i], state, false));
            assert(call_ensures(edges[i].condition->0, (state,), false));
        }
    }
}

/// A condition that can only fail never decides: where every conditional edge out of
/// the node can only fail, the first edge with neither a condition nor the mark of a
/// fallback is taken; without one, the first fallback; without one, none.
pub proof fn law_plain_before_fallback<S, C: Fn(&S) -> bool>(
    edges: Seq<Edge<C>>,
    node: Seq<char>,
    state: &S,
    i: int,
    target: Option<Seq<char>>,
)
    requires
        routes(edges, node, state, target),
        forall|j: int, b: bool|
            0 <= j < edges.len() && (#[trigger] edges[j]).from@ == node && !edges[j].fallback
                && edges[j].condition is Some && #[trigger] call_ensures(
                edges[j].condition->0,
                (state,),
                b,
            ) ==> !b,
    ensures
        0 <= i < edges.len() && edges[i].from@ == node && !edges[i].fallback
            && edges[i].condition is None && (forall|j: int|
            0 <= j < i ==> !((#[trigger] edges[j]).from@ == node && !edges[j].fallback
                && edges[j].condition is None)) ==> target == Some(edges[i].to@),
        0 <= i < edges.len() && edges[i].from@ == node && edges[i].fallback && (forall|j: int|
            0 <= j < edges.len() ==> !((#[trigger] edges[j]).from@ == node && !edges[j].fallback
                && edges[j].condition is None)) && (forall|j: int|
            0 <= j < i ==> !((#[trigger] edges[j]).from@ == node && edges[j].fallback)) ==> target
            == Some(edges[i].to@),
        target is None <==> forall|j: int|
            0 <= j < edges.len() && (#[trigger] edges[j]).from@ == node ==> !edges[j].fallback
                && edges[j].condition is Some,
{
    assert(target == default_target(edges, node)) by {
        if exists|k: int| #[trigger] first_to_hold(edges, node, state, k) {
            let k = choose|k: int| #[trigger] first_to_hold(edges, node, state, k);
            assert(call_ensures(edges[k].condition->0, (state,), true));
        }
    }
    lemma_first_edge(edges, normal_from(node));
    lemma_first_edge(edges, fallback_from(node));
    if 0 <= i < edges.len() {
        let plain = normal_from::<C>(node);
        let last = fallback_from::<C>(node);
        if plain(edges[i]) && forall|j: int| 0 <= j < i ==> !plain(#[trigger] edges[j]) {
            lemma_first_edge_skip(edges, plain, i);
            assert(edges.skip(i)[0] == edges[i]);
        }
        if last(edges[i]) && forall|j: int| 0 <= j < i ==> !last(#[trigger] edges[j]) {
            lemma_first_edge_skip(edges, last, i);
            assert(edges.skip(i)[0] == edges[i]);
        }
    }
}

/// A run only ever goes along an edge that leaves the node, and along one with a
/// condition only if that condition held or the edge is the last resort.
pub proof fn law_routes_follow_edges<S, C: Fn(&S) -> bool>(
    edges: Seq<Edge<C>>,
    node: Seq<char>,
    state: &S,
    next: Result<String, GraphError>,
)
    requires
        routes_inline(edges, node, state, next),
    ensures
        next matches Ok(t) ==> exists|i: int|
            0 <= i < edges.len() && (#[trigger] edges[i]).from@ == node && edges[i].to@ == t@ && (
            edges[i].condition is Some && !edges[i].fallback ==> call_ensures(
                edges[i].condition->0,
                (state,),
                true,
            )),
        next is Err ==> forall|i: int|
            0 <= i < edges.len() && (#[trigger] edges[i]).from@ == node ==> !edges[i].fallback
                && edges[i].condition is Some && call_ensures(
                edges[i].condition->0,
                (state,),
                false,
            ),
{
    lemma_first_edge(edges, normal_from(node));
    lemma_first_edge(edges, fallback_from(node));
    match next {
        Ok(t) => {
            if exists|i: int| #[trigger]
                first_to_hold(edges, node, state, i) && Some(t@) == Some(edges[i].to@) {
                let i = choose|i: int| #[trigger]
                    first_to_hold(edges, node, state, i) && Some(t@) == Some(edges[i].to@);
                assert(edges[i].from@ == node);
            } else {
                match first_edge(edges, normal_from(node)) {
                    Some(e) => {
                        let j = choose|j: int| 0 <= j < edges.len() && #[trigger] edges[j] == e;
                        assert(edges[j].to@ == t@);
                    },
                    None => {
                        let e = first_edge(edges, fallback_from(node))->0;
                        let j = choose|j: int| 0 <= j < edges.len() && #[trigger] edges[j] == e;
                        assert(edges[j].to@ == t@);
                    },
                }
            }
        },
        Err(_) => {
            assert forall|i: int|
                0 <= i < edges.len() && (#[trigger] edges[i]).from@ == node implies !edges[i].fallback
                && edges[i].condition is Some && call_ensures(
                edges[i].condition->0,
                (state,),
                false,
            ) by {
                assert(!normal_from::<C>(node)(edges[i]));
                assert(!fallback_from::<C>(node)(edges[i]));
                assert(guards(edges[i], node));
                assert(answers(edges[i], state, false));
            }
        },
    }
}

/// The edges that leave a node are looked up one by one: those of a list are those of
/// its parts in order, and an edge alone is found exactly if it leaves the node.
pub proof fn law_edges_leaving<C>(a: Seq<Edge<C>>, b: Seq<Edge<C>>, e: Edge<C>, node: Seq<char>)
    ensures
        edges_leaving(a + b, node) == edges_leaving(a, node) + edges_leaving(b, node),
        edges_leaving(seq![e], node) == (if e.from@ == node {
            seq![e]
        } else {
            Seq::empty()
        }),
{
    Seq::filter_distributes_over_add(a, b, leaves(node));
    reveal(Seq::filter);
    assert(seq![e].drop_last() =~= Seq::empty());
    assert(seq![e].drop_last().filter(leaves::<C>(node)) =~= Seq::empty());
    assert(edges_leaving(seq![e], node) =~= if e.from@ == node {
        seq![e]
    } else {
        Seq::empty()
    });
}

/// The first edge between two nodes, and the first fallback out of one, are those
/// before which there is none of the kind.
pub proof fn law_first_edges<C>(edges: Seq<Edge<C>>, from: Seq<char>, to: Seq<char>, i: int)
    requires
        0 <= i < edges.len(),
    ensures
        edges[i].from@ == from && edges[i].to@ == to && (forall|j: int|
            0 <= j < i ==> !((#[trigger] edges[j]).from@ == from && edges[j].to@ == to))
            ==> first_edge(edges, between(from, to)) == Some(edges[i]),
        edges[i].from@ == from && edges[i].fallback && (forall|j: int|
            0 <= j < i ==> !((#[trigger] edges[j]).from@ == from && edges[j].fallback))
            ==> first_edge(edges, fallback_from(from)) == Some(edges[i]),
        first_edge(edges, between(from, to)) is None ==> !(edges[i].from@ == from && edges[i].to@
            == to),
        first_edge(edges, fallback_from(from)) is None ==> !(edges[i].from@ == from
            && edges[i].fallback),
{
    let p = between::<C>(from, to);
    let q = fallback_from::<C>(from);
    lemma_first_edge(edges, p);
    lemma_first_edge(edges, q);
    if p(edges[i]) && forall|j: int| 0 <= j < i ==> !p(#[trigger] edges[j]) {
        lemma_first_edge_skip(edges, p, i);
        assert(edges.skip(i)[0] == edges[i]);
    }
    if q(edges[i]) && forall|j: int| 0 <= j < i ==> !q(#[trigger] edges[j]) {
        lemma_first_edge_skip(edges, q, i);
        assert(edges.skip(i)[0] == edges[i]);
    }
}

/// What `first_edge` finds has the property, and it finds one if there is one.
pub proof fn lemma_first_edge<C>(edges: Seq<Edge<C>>, p: spec_fn(Edge<C>) -> bool)
    ensures
        match first_edge(edges, p) {
            Some(e) => p(e) && exists|j: int| 0 <= j < edges.len() && #[trigger] edges[j] == e,
            None => forall|j: int| 0 <= j < edges.len() ==> !p(#[trigger] edges[j]),
        },
    decreases edges.len(),
{
    if edges.len() > 0 {
        let rest = edges.drop_first();
        if p(edges[0]) {
            assert(edges[0] == first_edge(edges, p)->0);
        } else {
            lemma_first_edge(rest, p);
            match first_edge(rest, p) {
                Some(e) => {
                    let j = choose|j: int| 0 <= j < rest.len() && #[trigger] rest[j] == e;
                    assert(edges[j + 1] == e);
                },
                None => {
                    assert forall|j: int| 0 <= j < edges.len() implies !p(#[trigger] edges[j]) by {
                        if j > 0 {
                            assert(edges[j] == rest[j - 1]);
                        }
                    }
                },
            }
        }
    }
}

/// Where the prefix holds no such edge, the first one is found in the rest.
proof fn lemma_first_edge_skip<C>(edges: Seq<Edge<C>>, p: spec_fn(Edge<C>) -> bool, n: int)
    requires
        0 <= n <= edges.len(),
        forall|j: int| 0 <= j < n ==> !p(#[trigger] edges[j]),
    ensures
        first_edge(edges, p) == first_edge(edges.skip(n), p),
    decreases n,
{
    if n == 0 {
        assert(edges.skip(0) =~= edges);
    } else {
        let rest = edges.drop_first();
        assert(!p(edges[0]));
        assert forall|j: int| 0 <= j < n - 1 implies !p(#[trigger] rest[j]) by {
            assert(rest[j] == edges[j + 1]);
        }
        lemma_first_edge_skip(rest, p, n - 1);
        assert(rest.skip(n - 1) =~= edges.skip(n));
    }
}

/// A graph. `N` is the type of nodes, `C` that of conditions. Cycles are allowed;
/// what bounds a run is its step limit.
pub struct Graph<N, C> {
    pub name: String,
    pub nodes: NodeTable<N>,
    pub edges: Vec<Edge<C>>,
    pub start: String,
    pub end: String,
    /// The fingerprint against which checkpoints are checked.
    pub canonical_hash: u64,
}

/// What is wrong with an edge, given the nodes.
pub open spec fn edge_defect<N, C>(nodes: Seq<(Seq<char>, N)>, e: Edge<C>) -> Option<Seq<char>> {
    if !node_table::has_node(nodes, e.from@) {
        Some("edge references non-existent source node '"@ + e.from@ + "'"@)
    } else if !node_table::has_node(nodes, e.to@) {
        Some("edge references non-existent target node '"@ + e.to@ + "'"@)
    } else {
        None
    }
}

/// What is wrong with the first edge that is not sound.
pub open spec fn edges_defect<N, C>(nodes: Seq<(Seq<char>, N)>, edges: Seq<Edge<C>>) -> Option<
    Seq<char>,
>
    decreases edges.len(),
{
    if edges.len() == 0 {
        None
    } else {
        match edges_defect(nodes, edges.drop_last()) {
            Some(m) => Some(m),
            None => edge_defect(nodes, edges.last()),
        }
    }
}

pub proof fn lemma_edges_defect<N, C>(nodes: Seq<(Seq<char>, N)>, edges: Seq<Edge<C>>)
    ensures
        edges_defect(nodes, edges) is None <==> forall|i: int|
            0 <= i < edges.len() ==> edge_defect(nodes, #[trigger] edges[i]) is None,
    decreases edges.len(),
{
    if edges.len() > 0 {
        let front = edges.drop_last();
        lemma_edges_defect(nodes, front);
        if edges_defect(nodes, front) is None {
            assert forall|i: int| 0 <= i < edges.len() && edge_defect(nodes, edges.last()) is None
                implies edge_defect(nodes, #[trigger] edges[i]) is None by {
                if i < front.len() {
                    assert(front[i] == edges[i]);
                }
            }
        } else {
            let i = choose|i: int| 0 <= i < front.len() && edge_defect(nodes, #[trigger] front[i]) is Some;
            assert(edge_defect(nodes, edges[i]) is Some);
        }
    }
}

/// What is wrong with a graph, the start before the end, both before the edges.
pub open spec fn graph_defect<N, C>(
    nodes: Seq<(Seq<char>, N)>,
    edges: Seq<Edge<C>>,
    start: Seq<char>,
    end: Seq<char>,
) -> Option<Seq<char>> {
    if !node_table::has_node(nodes, start) {
        Some("start node '"@ + start + "' not found"@)
    } else if !node_table::has_node(nodes, end) {
        Some("end node '"@ + end + "' not found"@)
    } else {
        edges_defect(nodes, edges)
    }
}

/// A graph is found sound exactly if its start, its end and both ends of each of its
/// edges are among the names of its nodes; and if not, what is named first is the
/// start, or the end, or the first edge with an end that is no node.
pub proof fn law_soundness<N, C>(
    nodes: Seq<(Seq<char>, N)>,
    edges: Seq<Edge<C>>,
    start: Seq<char>,
    end: Seq<char>,
)
    ensures
        graph_defect(nodes, edges, start, end) is None <==> {
            let names = node_table::node_names(nodes);
            &&& names.contains(start)
            &&& names.contains(end)
            &&& forall|i: int|
                0 <= i < edges.len() ==> names.contains((#[trigger] edges[i]).from@)
                    && names.contains(edges[i].to@)
        },
        forall|more: Seq<Edge<C>>|
            graph_defect(nodes, edges, start, end) is Some ==> #[trigger] graph_defect(
                nodes,
                edges + more,
                start,
                end,
            ) == graph_defect(nodes, edges, start, end),
{
    let names = node_table::node_names(nodes);
    lemma_edges_defect(nodes, edges);
    assert forall|n: Seq<char>| #[trigger] names.contains(n) <==> node_table::has_node(nodes, n) by {
        if names.contains(n) {
            let i = names.index_of(n);
            assert(nodes[i].0 == n);
        }
        if node_table::has_node(nodes, n) {
            let i = choose|i: int| 0 <= i < nodes.len() && (#[trigger] nodes[i]).0 == n;
            assert(names[i] == n);
        }
    }
    assert forall|i: int| 0 <= i < edges.len() implies (edge_defect(nodes, #[trigger] edges[i]) is None
        <==> names.contains(edges[i].from@) && names.contains(edges[i].to@)) by {}
    assert forall|more: Seq<Edge<C>>|
        graph_defect(nodes, edges, start, end) is Some implies #[trigger] graph_defect(
        nodes,
        edges + more,
        start,
        end,
    ) == graph_defect(nodes, edges, start, end) by {
        lemma_defect_stays(nodes, edges, more);
    }
}

proof fn lemma_defect_stays<N, C>(
    nodes: Seq<(Seq<char>, N)>,
    edges: Seq<Edge<C>>,
    more: Seq<Edge<C>>,
)
    ensures
        edges_defect(nodes, edges) is Some ==> edges_defect(nodes, edges + more) == edges_defect(
            nodes,
            edges,
        ),
    decreases more.len(),
{
    if more.len() == 0 {
        assert(edges + more =~= edges);
    } else {
        assert((edges + more).drop_last() =~= edges + more.drop_last());
        lemma_defect_stays(nodes, edges, more.drop_last());
    }
}

/// The error for a node without any outgoing edge.
pub open spec fn dead_end_text(node: Seq<char>) -> Seq<char> {
    "node '"@ + node + "' has no outgoing edges and is not the end node"@
}

/// The error for a node none of whose outgoing edges applies.
pub open spec fn no_match_text(node: Seq<char>) -> Seq<char> {
    "node '"@ + node + "' has no matching outgoing edge"@
}

/// The error is `InvalidGraph` with that text.
pub open spec fn invalid_graph(e: GraphError, text: Seq<char>) -> bool {
    e matches GraphError::Terminal(TerminalError::InvalidGraph(m)) && m@ == text
}

/// Whether an edge leaves the node.
pub open spec fn has_exit<C>(edges: Seq<Edge<C>>, node: Seq<char>) -> bool {
    exists|i: int| 0 <= i < edges.len() && (#[trigger] edges[i]).from@ == node
}

/// Routing that reports an error where no edge applies.
pub open spec fn routes_inline<S, C: Fn(&S) -> bool>(
    edges: Seq<Edge<C>>,
    node: Seq<char>,
    state: &S,
    next: Result<String, GraphError>,
) -> bool {
    match next {
        Ok(target) => routes(edges, node, state, Some(target@)),
        Err(e) => routes(edges, node, state, None) && invalid_graph(
            e,
            if has_exit(edges, node) {
                no_match_text(node)
            } else {
                dead_end_text(node)
            },
        ),
    }
}

fn invalid(prefix: &str, name: &str, suffix: &str) -> (e: TerminalError)
    ensures
        e matches TerminalError::InvalidGraph(m) && m@ == prefix@ + name@ + suffix@,
{
    let mut s = prefix.to_owned();
    s.append(name);
    s.append(suffix);
    TerminalError::InvalidGraph(s)
}

impl<N, C> Graph<N, C> {
    /// The start, the end and both ends of every edge are nodes of the graph.
    pub open spec fn valid(self) -> bool {
        &&& node_table::has_node(self.nodes@, self.start@)
        &&& node_table::has_node(self.nodes@, self.end@)
        &&& forall|i: int|
            0 <= i < self.edges@.len() ==> node_table::has_node(
                self.nodes@,
                (#[trigger] self.edges@[i]).from@,
            ) && node_table::has_node(self.nodes@, self.edges@[i].to@)
    }

    /// The graph's name.
    pub fn name(&self) -> (name: &str)
        ensures
            name@ == self.name@,
    {
        self.name.as_str()
    }

    /// The names of the nodes, in the order in which they were added.
    pub fn node_names(&self) -> (names: Vec<String>)
        ensures
            text::texts(names@) == node_table::node_names(self.nodes@),
    {
        self.nodes.names()
    }

    /// The node at which a run starts.
    pub fn start_node(&self) -> (name: &str)
        ensures
            name@ == self.start@,
    {
        self.start.as_str()
    }

    /// The node at which a run ends.
    pub fn end_node(&self) -> (name: &str)
        ensures
            name@ == self.end@,
    {
        self.end.as_str()
    }

    /// The fingerprint that was set, or else that of the structure.
    pub fn canonical_hash(&self) -> (h: u64)
        ensures
            h == self.canonical_hash,
    {
        self.canonical_hash
    }

    /// The fingerprint of the structure as it is now.
    pub fn hash_u64(&self) -> (h: u64)
        ensures
            h == hash::structural_hash(
                node_table::node_names(self.nodes@),
                hash::edge_texts(self.edges@),
            ),
    {
        hash::compute_structural_hash(&self.nodes, &self.edges)
    }

    /// The graph's fingerprint in sixteen hexadecimal digits.
    pub fn hash(&self) -> (s: String)
        ensures
            s@ == text::hex_text(self.canonical_hash as nat, 16),
    {
        text::hex(self.canonical_hash as u128, 16)
    }

    /// The edges that leave a node, in the order in which they were added.
    pub fn edges_from(&self, from: &str) -> (found: Vec<&Edge<C>>)
        ensures
            found@.map_values(|e: &Edge<C>| *e) == edges_leaving(self.edges@, from@),
    {
        let mut found: Vec<&Edge<C>> = Vec::new();
        let mut i: usize = 0;
        let ghost deref = |e: &Edge<C>| *e;
        let ghost p: spec_fn(Edge<C>) -> bool = leaves(from@);
        proof {
            reveal(Seq::filter);
            assert(found@.map_values(deref) =~= self.edges@.take(0).filter(p));
        }
        while i < self.edges.len()
            invariant
                i <= self.edges@.len(),
                deref == (|e: &Edge<C>| *e),
                p == leaves::<C>(from@),
                found@.map_values(deref) == self.edges@.take(i as int).filter(p),
            decreases self.edges@.len() - i,
        {
            let e = &self.edges[i];
            let ghost so_far = found@;
            if text::same_text(e.from.as_str(), from) {
                found.push(e);
                assert(found@.map_values(deref) =~= so_far.map_values(deref).push(*e));
            }
            i += 1;
            proof {
                reveal(Seq::filter);
                assert(self.edges@.take(i as int).drop_last() =~= self.edges@.take(i - 1));
                assert(self.edges@.take(i as int).last() == *e);
            }
        }
        assert(self.edges@.take(self.edges@.len() as int) =~= self.edges@);
        found
    }

    /// The first edge between two nodes.
    pub fn find_edge(&self, from: &str, to: &str) -> (found: Option<&Edge<C>>)
        ensures
            match found {
                Some(e) => Some(*e) == first_edge(self.edges@, between(from@, to@)),
                None => first_edge(self.edges@, between(from@, to@)) is None,
            },
    {
        let mut i: usize = 0;
        let ghost p = between::<C>(from@, to@);
        while i < self.edges.len()
            invariant
                i <= self.edges@.len(),
                p == between::<C>(from@, to@),
                forall|j: int| 0 <= j < i ==> !p(#[trigger] self.edges@[j]),
            decreases self.edges@.len() - i,
        {
            let e = &self.edges[i];
            if text::same_text(e.from.as_str(), from) && text::same_text(e.to.as_str(), to) {
                proof {
                    lemma_first_edge_skip(self.edges@, p, i as int);
                    assert(self.edges@.skip(i as int)[0] == *e);
                }
                return Some(e);
            }
            i += 1;
        }
        proof {
            lemma_first_edge_skip(self.edges@, p, self.edges@.len() as int);
        }
        None
    }

    /// The table of nodes.
    pub fn node_map(&self) -> (nodes: &NodeTable<N>)
        ensures
            *nodes == self.nodes,
    {
        &self.nodes
    }

    fn first_target(&self, from: &str, fallback: bool) -> (target: Option<String>)
        ensures
            match target {
                Some(t) => first_edge(
                    self.edges@,
                    if fallback {
                        fallback_from(from@)
                    } else {
                        normal_from(from@)
                    },
                ) matches Some(e) && e.to@ == t@,
                None => first_edge(
                    self.edges@,
                    if fallback {
                        fallback_from(from@)
                    } else {
                        normal_from(from@)
                    },
                ) is None,
            },
    {
        let mut i: usize = 0;
        let ghost p = if fallback {
            fallback_from::<C>(from@)
        } else {
            normal_from::<C>(from@)
        };
        while i < self.edges.len()
            invariant
                i <= self.edges@.len(),
                p == (if fallback {
                    fallback_from::<C>(from@)
                } else {
                    normal_from::<C>(from@)
                }),
                forall|j: int| 0 <= j < i ==> !p(#[trigger] self.edges@[j]),
            decreases self.edges@.len() - i,
        {
            let e = &self.edges[i];
            let wanted = if fallback {
                e.fallback
            } else {
                e.is_normal()
            };
            if wanted && text::same_text(e.from.as_str(), from) {
                proof {
                    lemma_first_edge_skip(self.edges@, p, i as int);
                    assert(self.edges@.skip(i as int)[0] == *e);
                }
                return Some(e.to.clone());
            }
            i += 1;
        }
        proof {
            lemma_first_edge_skip(self.edges@, p, self.edges@.len() as int);
        }
        None
    }

    /// Where a run goes from a node in a state.
    pub fn resolve_next<S>(&self, current: &str, state: &S) -> (target: Option<String>) where
        C: Fn(&S) -> bool,

        requires
            all_askable(self.edges@, current@, state),
        ensures
            match target {
                Some(t) => routes(self.edges@, current@, state, Some(t@)),
                None => routes(self.edges@, current@, state, None),
            },
    {
        let mut i: usize = 0;
        while i < self.edges.len()
            invariant
                i <= self.edges@.len(),
                all_askable(self.edges@, current@, state),
                none_holds(self.edges@, current@, state, i as int),
            decreases self.edges@.len() - i,
        {
            let e = &self.edges[i];
            if e.is_conditional() && text::same_text(e.from.as_str(), current) {
                assert(guards(self.edges@[i as int], current@));
                if let Some(condition) = &e.condition {
                    let holds = condition(state);
                    assert(answers(self.edges@[i as int], state, holds));
                    if holds {
                        assert(first_to_hold(self.edges@, current@, state, i as int));
                        return Some(e.to.clone());
                    }
                }
            }
            i += 1;
        }
        match self.first_target(current, false) {
            Some(t) => Some(t),
            None => self.first_target(current, true),
        }
    }

    /// Where a run goes from a node in a state, an error where no edge applies.
    pub fn resolve_next_inline<S>(&self, current: &str, state: &S) -> (next: Result<
        String,
        GraphError,
    >) where C: Fn(&S) -> bool,
        requires
            all_askable(self.edges@, current@, state),
        ensures
            routes_inline(self.edges@, current@, state, next),
    {
        let mut i: usize = 0;
        while i < self.edges.len() && !text::same_text(self.edges[i].from.as_str(), current)
            invariant
                i <= self.edges@.len(),
                forall|j: int| 0 <= j < i ==> (#[trigger] self.edges@[j]).from@ != current@,
            decreases self.edges@.len() - i,
        {
            i += 1;
        }
        if i >= self.edges.len() {
            proof {
                lemma_first_edge(self.edges@, normal_from(current@));
                lemma_first_edge(self.edges@, fallback_from(current@));
            }
            return Err(
                GraphError::Terminal(
                    invalid(
                        "node '",
                        current,
                        "' has no outgoing edges and is not the end node",
                    ),
                ),
            );
        }
        assert(self.edges@[i as int].from@ == current@);
        match self.resolve_next(current, state) {
            Some(target) => Ok(target),
            None => Err(
                GraphError::Terminal(
                    invalid("node '", current, "' has no matching outgoing edge"),
                ),
            ),
        }
    }

    /// Where the first fallback edge out of a node leads.
    pub fn find_fallback_edge(&self, from: &str) -> (target: Option<String>)
        ensures
            match target {
                Some(t) => first_edge(self.edges@, fallback_from(from@)) matches Some(e) && e.to@ == t@,
                None => first_edge(self.edges@, fallback_from(from@)) is None,
            },
    {
        self.first_target(from, true)
    }

    /// Checks that the start, the end and the ends of every edge are nodes.
    pub fn validate(&self) -> (r: Result<(), TerminalError>)
        ensures
            r is Ok <==> self.valid(),
            match r {
                Ok(()) => graph_defect(self.nodes@, self.edges@, self.start@, self.end@) is None,
                Err(e) => e matches TerminalError::InvalidGraph(m) && graph_defect(
                    self.nodes@,
                    self.edges@,
                    self.start@,
                    self.end@,
                ) == Some(m@),
            },
    {
        proof {
            lemma_edges_defect(self.nodes@, self.edges@);
            assert(edges_defect(self.nodes@, self.edges@) is None <==> forall|i: int|
                0 <= i < self.edges@.len() ==> node_table::has_node(
                    self.nodes@,
                    (#[trigger] self.edges@[i]).from@,
                ) && node_table::has_node(self.nodes@, self.edges@[i].to@));
        }
        if !self.nodes.contains(self.start.as_str()) {
            return Err(invalid("start node '", self.start.as_str(), "' not found"));
        }
        if !self.nodes.contains(self.end.as_str()) {
            return Err(invalid("end node '", self.end.as_str(), "' not found"));
        }
        let mut i: usize = 0;
        assert(self.edges@.take(0) =~= Seq::empty());
        while i < self.edges.len()
            invariant
                i <= self.edges@.len(),
                edges_defect(self.nodes@, self.edges@.take(i as int)) is None,
                node_table::has_node(self.nodes@, self.start@),
                node_table::has_node(self.nodes@, self.end@),
                edges_defect(self.nodes@, self.edges@) is None <==> self.valid(),
            decreases self.edges@.len() - i,
        {
            let e = &self.edges[i];
            assert(self.edges@.take(i + 1).drop_last() =~= self.edges@.take(i as int));
            if !self.nodes.contains(e.from.as_str()) {
                proof {
                    lemma_defect_prefix(self.nodes@, self.edges@, i + 1);
                }
                return Err(
                    invalid("edge references non-existent source node '", e.from.as_str(), "'"),
                );
            }
            if !self.nodes.contains(e.to.as_str()) {
                proof {
                    lemma_defect_prefix(self.nodes@, self.edges@, i + 1);
                }
                return Err(
                    invalid("edge references non-existent target node '", e.to.as_str(), "'"),
                );
            }
            i += 1;
        }
        assert(self.edges@.take(self.edges@.len() as int) =~= self.edges@);
        Ok(())
    }
}

proof fn lemma_defect_prefix<N, C>(nodes: Seq<(Seq<char>, N)>, edges: Seq<Edge<C>>, n: int)
    requires
        0 <= n <= edges.len(),
        edges_defect(nodes, edges.take(n)) is Some,
    ensures
        edges_defect(nodes, edges) == edges_defect(nodes, edges.take(n)),
    decreases edges.len() - n,
{
    if n == edges.len() {
        assert(edges.take(n) =~= edges);
    } else {
        assert(edges.take(n + 1).drop_last() =~= edges.take(n));
        lemma_defect_prefix(nodes, edges, n + 1);
    }
}

/// What a graph lacks is named: the start, or else the end, or else the end of an edge that
/// is no node, its source before its target; edge by edge.
pub proof fn law_defects_are_named<N, C>(
    nodes: Seq<(Seq<char>, N)>,
    edges: Seq<Edge<C>>,
    start: Seq<char>,
    end: Seq<char>,
    e: Edge<C>,
)
    ensures
        ({
            let names = node_table::node_names(nodes);
            &&& !names.contains(start) ==> graph_defect(nodes, edges, start, end) == Some(
                "start node '"@ + start + "' not found"@,
            )
            &&& names.contains(start) && !names.contains(end) ==> graph_defect(
                nodes,
                edges,
                start,
                end,
            ) == Some("end node '"@ + end + "' not found"@)
            &&& graph_defect(nodes, edges, start, end) is None && !names.contains(e.from@)
                ==> graph_defect(nodes, edges.push(e), start, end) == Some(
                "edge references non-existent source node '"@ + e.from@ + "'"@,
            )
            &&& graph_defect(nodes, edges, start, end) is None && names.contains(e.from@)
                && !names.contains(e.to@) ==> graph_defect(nodes, edges.push(e), start, end)
                == Some("edge references non-existent target node '"@ + e.to@ + "'"@)
        }),
{
    let names = node_table::node_names(nodes);
    assert(edges.push(e).drop_last() =~= edges);
    assert forall|n: Seq<char>| #[trigger] names.contains(n) <==> node_table::has_node(nodes, n) by {
        if names.contains(n) {
            let i = names.index_of(n);
            assert(nodes[i].0 == n);
        }
        if node_table::has_node(nodes, n) {
            let i = choose|i: int| 0 <= i < nodes.len() && (#[trigger] nodes[i]).0 == n;
            assert(names[i] == n);
        }
    }
}

/// A run that finds no way on at a node is told so with the name of the node: that it has no
/// edge, where none leaves it, and that none applies, where one does.
pub proof fn law_dead_ends_are_told<S, C: Fn(&S) -> bool>(
    edges: Seq<Edge<C>>,
    node: Seq<char>,
    state: &S,
    e: GraphError,
)
    requires
        routes_inline(edges, node, state, Err::<String, GraphError>(e)),
    ensures
        (forall|i: int| 0 <= i < edges.len() ==> (#[trigger] edges[i]).from@ != node) ==> (
        e matches GraphError::Terminal(TerminalError::InvalidGraph(m)) && m@ == "node '"@ + node
            + "' has no outgoing edges and is not the end node"@),
        (exists|i: int| 0 <= i < edges.len() && (#[trigger] edges[i]).from@ == node) ==> (
        e matches GraphError::Terminal(TerminalError::InvalidGraph(m)) && m@ == "node '"@ + node
            + "' has no matching outgoing edge"@),
{
}

/// A graph is valid exactly if its start, its end and both ends of each of its edges are
/// among the names of its nodes.
pub proof fn law_valid_graphs<N, C>(g: Graph<N, C>)
    ensures
        g.valid() <==> {
            let names = node_table::node_names(g.nodes@);
            &&& names.contains(g.start@)
            &&& names.contains(g.end@)
            &&& forall|i: int|
                0 <= i < g.edges@.len() ==> names.contains((#[trigger] g.edges@[i]).from@)
                    && names.contains(g.edges@[i].to@)
        },
{
    let nodes = g.nodes@;
    let names = node_table::node_names(nodes);
    assert forall|n: Seq<char>| #[trigger] names.contains(n) <==> node_table::has_node(nodes, n) by {
        if names.contains(n) {
            let i = names.index_of(n);
            assert(nodes[i].0 == n);
        }
        if node_table::has_node(nodes, n) {
            let i = choose|i: int| 0 <= i < nodes.len() && (#[trigger] nodes[i]).0 == n;
            assert(names[i] == n);
        }
    }
}

} // verus!
