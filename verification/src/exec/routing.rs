//! Where a run goes after a node.

use vstd::prelude::*;

use crate::error::GraphError;
use crate::exec::execution_engine::NextAction;
use crate::graph::graph_core;
use crate::graph::graph_core::{Edge, Graph};
use crate::text;

verus! {

/// Where a run goes.
pub enum Move {
    /// It is over.
    Done,
    /// To a node.
    To(Seq<char>),
    /// Nowhere: it fails.
    Fail(GraphError),
}

/// Where the edges lead.
pub open spec fn edge_move(next: Result<String, GraphError>) -> Move {
    match next {
        Ok(t) => Move::To(t@),
        Err(e) => Move::Fail(e),
    }
}

/// Where a run goes from a node in a state, given what the node asked for: an end
/// ends it, a jump is made whether or not an edge leads there, and otherwise the
/// edges decide, unless the node is the end node.
pub open spec fn moves<S, N, C: Fn(&S) -> bool>(
    graph: Graph<N, C>,
    current: Seq<char>,
    state: S,
    action: NextAction,
    taken: Move,
) -> bool {
    match action {
        NextAction::End => taken is Done,
        NextAction::Goto(t) => taken == Move::To(t@),
        NextAction::Next => if current == graph.end@ {
            taken is Done
        } else {
            exists|next: Result<String, GraphError>| #[trigger]
                graph_core::routes_inline(graph.edges@, current, &state, next) && taken
                    == edge_move(next)
        },
    }
}

/// Every condition may be asked on every state.
pub open spec fn conditions_total<S, C: Fn(&S) -> bool>(edges: Seq<Edge<C>>) -> bool {
    forall|i: int, s: S|
        #![trigger call_requires(edges[i].condition->0, (&s,))]
        0 <= i < edges.len() && edges[i].condition is Some ==> call_requires(
            edges[i].condition->0,
            (&s,),
        )
}

pub proof fn lemma_total_askable<S, C: Fn(&S) -> bool>(
    edges: Seq<Edge<C>>,
    node: Seq<char>,
    state: S,
)
    requires
        conditions_total::<S, C>(edges),
    ensures
        graph_core::all_askable(edges, node, &state),
{
    assert forall|i: int|
        0 <= i < edges.len() && graph_core::guards(#[trigger] edges[i], node) implies graph_core::askable(
        edges[i],
        &state,
    ) by {
        assert(call_requires(edges[i].condition->0, (&state,)));
    }
}

/// The move that a result stands for: no target is the end of the run.
pub open spec fn move_of(r: Result<Option<String>, GraphError>) -> Move {
    match r {
        Ok(Some(t)) => Move::To(t@),
        Ok(None) => Move::Done,
        Err(e) => Move::Fail(e),
    }
}

/// Where a run goes from a node in a state, given what the node asked for.
pub fn next_move<S, N, C: Fn(&S) -> bool>(
    graph: &Graph<N, C>,
    current: &str,
    state: &S,
    action: NextAction,
) -> (r: Result<Option<String>, GraphError>)
    requires
        conditions_total::<S, C>(graph.edges@),
    ensures
        moves(*graph, current@, *state, action, move_of(r)),
{
    match action {
        NextAction::End => Ok(None),
        NextAction::Goto(t) => Ok(Some(t)),
        NextAction::Next => {
            if text::same_text(current, graph.end_node()) {
                return Ok(None);
            }
            proof {
                lemma_total_askable(graph.edges@, current@, *state);
            }
            let next = graph.resolve_next_inline(current, state);
            let ghost taken = next;
            assert(graph_core::routes_inline(graph.edges@, current@, state, taken));
            match next {
                Ok(t) => Ok(Some(t)),
                Err(e) => Err(e),
            }
        },
    }
}

/// A node is asked where the run goes, and the run goes there: a jump ends at the node
/// that was named, whatever the edges are, and an end ends the run. Where nothing was
/// asked for, the run is over at the end node and nowhere else; elsewhere it goes along
/// an edge that leaves the node, and fails only where no edge is open.
pub proof fn law_runs_go_where_asked<S, N, C: Fn(&S) -> bool>(
    graph: Graph<N, C>,
    current: Seq<char>,
    state: S,
    action: NextAction,
    taken: Move,
)
    requires
        moves(graph, current, state, action, taken),
    ensures
        action matches NextAction::Goto(t) ==> taken == Move::To(t@),
        action is End ==> taken is Done,
        action is Next && current == graph.end@ ==> taken is Done,
        action is Next && current != graph.end@ ==> !(taken is Done),
        action is Next && current != graph.end@ ==> (taken matches Move::To(t) ==> exists|i: int|
            0 <= i < graph.edges@.len() && (#[trigger] graph.edges@[i]).from@ == current
                && graph.edges@[i].to@ == t && (graph.edges@[i].condition is Some
                && !graph.edges@[i].fallback ==> call_ensures(
                graph.edges@[i].condition->0,
                (&state,),
                true,
            ))),
        action is Next && taken is Fail ==> forall|i: int|
            0 <= i < graph.edges@.len() && (#[trigger] graph.edges@[i]).from@ == current
                ==> !graph.edges@[i].fallback && graph.edges@[i].condition is Some && call_ensures(
                graph.edges@[i].condition->0,
                (&state,),
                false,
            ),
{
    if action is Next && current != graph.end@ {
        let next = choose|next: Result<String, GraphError>| #[trigger]
            graph_core::routes_inline(graph.edges@, current, &state, next) && taken == edge_move(
                next,
            );
        graph_core::law_routes_follow_edges(graph.edges@, current, &state, next);
    }
}

/// Between two states and two graphs, jumps and ends do not differ.
pub proof fn law_jumps_ignore_the_edges<S, N, C: Fn(&S) -> bool>(
    one: Graph<N, C>,
    other: Graph<N, C>,
    here: Seq<char>,
    there: Seq<char>,
    state: S,
    later: S,
    action: NextAction,
    taken: Move,
)
    requires
        !(action is Next),
    ensures
        moves(one, here, state, action, taken) <==> moves(other, there, later, action, taken),
        exists|t: Move| moves(one, here, state, action, t),
{
    match action {
        NextAction::Goto(t) => {
            assert(moves(one, here, state, action, Move::To(t@)));
        },
        _ => {
            assert(moves(one, here, state, action, Move::Done));
        },
    }
}

/// What a result stands for tells it apart: a target is where the run goes, no target
/// is its end, and an error is its failure.
pub proof fn law_results_stand_for_moves(
    r: Result<Option<String>, GraphError>,
    t: Seq<char>,
    e: GraphError,
)
    ensures
        move_of(r) is Done <==> r == Ok::<Option<String>, GraphError>(None),
        move_of(r) == Move::To(t) <==> (r matches Ok(Some(s)) && s@ == t),
        move_of(r) == Move::Fail(e) <==> r == Err::<Option<String>, GraphError>(e),
{
}

} // verus!
