//! Which nodes of a graph a run can reach.

use vstd::prelude::*;

use crate::graph::cycles;
use crate::graph::graph_core::{Edge, Graph};
use crate::string_map::StringMap;
use crate::text;

verus! {

/// A walk along edges.
pub open spec fn is_walk<C>(edges: Seq<Edge<C>>, p: Seq<Seq<char>>) -> bool {
    &&& p.len() >= 1
    &&& forall|i: int|
        0 < i < p.len() ==> cycles::successors(edges, p[i - 1]).contains(#[trigger] p[i])
}

/// Some walk leads from one node to another.
pub open spec fn reachable<C>(edges: Seq<Edge<C>>, from: Seq<char>, to: Seq<char>) -> bool {
    exists|p: Seq<Seq<char>>| #[trigger] is_walk(edges, p) && p[0] == from && p.last() == to
}

/// The targets of edges.
pub open spec fn targets<C>(edges: Seq<Edge<C>>) -> Seq<Seq<char>> {
    edges.map_values(|e: Edge<C>| e.to@)
}

proof fn lemma_successor_target<C>(edges: Seq<Edge<C>>, node: Seq<char>, to: Seq<char>)
    requires
        cycles::successors(edges, node).contains(to),
    ensures
        targets(edges).contains(to),
    decreases edges.len(),
{
    if edges.len() > 0 {
        let front = edges.drop_last();
        let s = cycles::successors(edges, node);
        let t = cycles::successors(front, node);
        let k = s.index_of(to);
        if edges.last().from@ == node && k == t.len() {
            assert(targets(edges)[edges.len() - 1] == to);
        } else {
            assert(t[k] == to);
            lemma_successor_target(front, node, to);
            let i = targets(front).index_of(to);
            assert(targets(edges)[i] == to);
        }
    }
}

proof fn lemma_reach_step<C>(
    edges: Seq<Edge<C>>,
    from: Seq<char>,
    via: Seq<char>,
    to: Seq<char>,
)
    requires
        reachable(edges, from, via),
        cycles::successors(edges, via).contains(to),
    ensures
        reachable(edges, from, to),
{
    let p = choose|p: Seq<Seq<char>>| #[trigger]
        is_walk(edges, p) && p[0] == from && p.last() == via;
    let q = p.push(to);
    assert forall|i: int| 0 < i < q.len() implies cycles::successors(edges, q[i - 1]).contains(
        #[trigger] q[i],
    ) by {
        if i < p.len() {
            assert(q[i] == p[i] && q[i - 1] == p[i - 1]);
        }
    }
    assert(is_walk(edges, q) && q[0] == from && q.last() == to);
}

/// A set of names that holds the start and is closed under edges holds every name
/// on a walk from the start.
proof fn lemma_closed<C>(edges: Seq<Edge<C>>, seen: Seq<Seq<char>>, p: Seq<Seq<char>>, k: int)
    requires
        is_walk(edges, p),
        0 <= k < p.len(),
        seen.contains(p[0]),
        forall|v: Seq<char>, w: Seq<char>| #[trigger]
            seen.contains(v) && #[trigger] cycles::successors(edges, v).contains(w) ==> seen.contains(
                w,
            ),
    ensures
        seen.contains(p[k]),
    decreases k,
{
    if k > 0 {
        lemma_closed(edges, seen, p, k - 1);
        assert(cycles::successors(edges, p[k - 1]).contains(p[k]));
    }
}

/// What has been seen lies within the start and the targets of edges.
spec fn room<C>(edges: Seq<Edge<C>>, start: Seq<char>) -> Set<Seq<char>> {
    targets(edges).push(start).to_set()
}

proof fn lemma_room<C>(edges: Seq<Edge<C>>, start: Seq<char>, seen: Seq<Seq<char>>)
    requires
        seen.no_duplicates(),
        forall|i: int| 0 <= i < seen.len() ==> room(edges, start).contains(#[trigger] seen[i]),
    ensures
        seen.len() <= room(edges, start).len(),
{
    vstd::seq_lib::seq_to_set_is_finite(targets(edges).push(start));
    seen.unique_seq_to_set();
    vstd::set_lib::lemma_len_subset(seen.to_set(), room(edges, start));
}

/// The names that a run can reach from the start.
pub fn reachable_names<N, C>(
    graph: &Graph<N, C>,
    adj: &StringMap<Vec<String>>,
) -> (seen: Vec<String>)
    requires
        cycles::adj_model(adj@) == cycles::adjacency(graph.edges@),
    ensures
        forall|name: Seq<char>| #[trigger]
            text::texts(seen@).contains(name) <==> reachable(graph.edges@, graph.start@, name),
{
    let mut seen: Vec<String> = Vec::new();
    let mut queue: Vec<String> = Vec::new();
    let ghost edges = graph.edges@;
    let ghost start = graph.start@;
    proof {
        text::lemma_texts_push(seen@, graph.start);
        text::lemma_texts_push(queue@, graph.start);
        assert(is_walk(edges, seq![start]) && seq![start][0] == start && seq![start].last() == start);
        assert(targets(edges).push(start)[edges.len() as int] == start);
    }
    queue.push(graph.start.clone());
    seen.push(graph.start.clone());
    assert(text::texts(seen@) =~= seq![start]);
    assert(text::texts(queue@) =~= seq![start]);
    assert(text::texts(seen@)[0] == start);
    while queue.len() > 0
        invariant
            edges == graph.edges@,
            start == graph.start@,
            cycles::adj_model(adj@) == cycles::adjacency(edges),
            text::texts(seen@).contains(start),
            text::texts(seen@).no_duplicates(),
            forall|i: int|
                0 <= i < seen@.len() ==> room(edges, start).contains(
                    #[trigger] text::texts(seen@)[i],
                ),
            forall|i: int|
                0 <= i < seen@.len() ==> reachable(edges, start, #[trigger] text::texts(seen@)[i]),
            forall|i: int|
                0 <= i < queue@.len() ==> text::texts(seen@).contains(
                    #[trigger] text::texts(queue@)[i],
                ),
            forall|v: Seq<char>, w: Seq<char>| #[trigger]
                text::texts(seen@).contains(v) && #[trigger] cycles::successors(edges, v).contains(
                    w,
                ) ==> text::texts(seen@).contains(w) || text::texts(queue@).contains(v),
        decreases room(edges, start).len() - seen@.len(), queue@.len(),
    {
        let ghost queue0 = text::texts(queue@);
        let ghost seen0 = text::texts(seen@);
        proof {
            lemma_room(edges, start, seen0);
        }
        let node = match queue.pop() {
            Some(node) => node,
            None => return seen,
        };
        let ghost rest = text::texts(queue@);
        assert(queue0 =~= rest.push(node@));
        assert(queue0[rest.len() as int] == node@);
        assert(seen0.contains(node@));
        assert forall|j: int| 0 <= j < queue@.len() implies seen0.contains(#[trigger] rest[j]) by {
            assert(queue0[j] == rest[j]);
        }
        if let Some(neighbors) = adj.get(node.as_str()) {
            let ghost names = text::texts(neighbors@);
            proof {
                assert(cycles::adj_model(adj@)[node@] == names);
                assert(cycles::adjacency(edges).contains_key(node@));
                assert(names == cycles::successors(edges, node@));
                let i = seen0.index_of(node@);
                assert(reachable(edges, start, seen0[i]));
            }
            let mut i: usize = 0;
            while i < neighbors.len()
                invariant
                    i <= neighbors@.len(),
                    edges == graph.edges@,
                    start == graph.start@,
                    names == text::texts(neighbors@),
                    names == cycles::successors(edges, node@),
                    reachable(edges, start, node@),
                    text::texts(seen@).contains(start),
                    text::texts(seen@).no_duplicates(),
                    seen0.len() <= seen@.len(),
                    seen0.len() == seen@.len() ==> text::texts(queue@).len() == rest.len(),
                    forall|j: int| 0 <= j < seen0.len() ==> text::texts(seen@)[j] == #[trigger] seen0[j],
                    forall|j: int|
                        0 <= j < seen@.len() ==> room(edges, start).contains(
                            #[trigger] text::texts(seen@)[j],
                        ),
                    forall|j: int|
                        0 <= j < seen@.len() ==> reachable(
                            edges,
                            start,
                            #[trigger] text::texts(seen@)[j],
                        ),
                    forall|j: int|
                        0 <= j < queue@.len() ==> text::texts(seen@).contains(
                            #[trigger] text::texts(queue@)[j],
                        ),
                    forall|j: int| 0 <= j < i ==> text::texts(seen@).contains(#[trigger] names[j]),
                    forall|v: Seq<char>, w: Seq<char>| #[trigger]
                        text::texts(seen@).contains(v) && #[trigger] cycles::successors(
                            edges,
                            v,
                        ).contains(w) ==> text::texts(seen@).contains(w) || text::texts(
                            queue@,
                        ).contains(v) || v == node@,
                decreases neighbors@.len() - i,
            {
                let neighbor = &neighbors[i];
                assert(names[i as int] == neighbor@);
                assert(names.contains(neighbor@));
                if !text::holds_text(&seen, neighbor.as_str()) {
                    let ghost seen1 = text::texts(seen@);
                    let ghost queue1 = text::texts(queue@);
                    proof {
                        lemma_reach_step(edges, start, node@, neighbor@);
                        lemma_successor_target(edges, node@, neighbor@);
                        let k = targets(edges).index_of(neighbor@);
                        assert(targets(edges).push(start)[k] == neighbor@);
                        text::lemma_texts_push(seen@, *neighbor);
                        text::lemma_texts_push(queue@, *neighbor);
                    }
                    seen.push(neighbor.clone());
                    queue.push(neighbor.clone());
                    proof {
                        let seen2 = text::texts(seen@);
                        let queue2 = text::texts(queue@);
                        assert(seen2 == seen1.push(neighbor@));
                        assert(queue2 == queue1.push(neighbor@));
                        assert forall|x: Seq<char>| #[trigger] seen2.contains(x) <==> seen1.contains(x)
                            || x == neighbor@ by {
                            if seen1.contains(x) {
                                assert(seen2[seen1.index_of(x)] == x);
                            }
                            assert(seen2[seen1.len() as int] == neighbor@);
                        }
                        assert forall|x: Seq<char>| #[trigger] queue2.contains(x) <==> queue1.contains(x)
                            || x == neighbor@ by {
                            if queue1.contains(x) {
                                assert(queue2[queue1.index_of(x)] == x);
                            }
                            assert(queue2[queue1.len() as int] == neighbor@);
                        }
                        assert forall|j: int| 0 <= j < queue@.len() implies seen2.contains(
                            #[trigger] queue2[j],
                        ) by {
                            if j < queue1.len() {
                                assert(seen1.contains(queue1[j]));
                            }
                        }
                        assert(seen2.no_duplicates()) by {
                            assert forall|x: int, y: int| 0 <= x < seen2.len() && 0 <= y < seen2.len() && x
                                != y implies seen2[x] != seen2[y] by {
                                if x == seen1.len() {
                                    assert(seen1.contains(seen1[y]));
                                } else if y == seen1.len() {
                                    assert(seen1.contains(seen1[x]));
                                }
                            }
                        }
                    }
                }
                i += 1;
            }
            proof {
                let seen2 = text::texts(seen@);
                assert forall|v: Seq<char>, w: Seq<char>| #[trigger] seen2.contains(v)
                    && #[trigger] cycles::successors(edges, v).contains(w) implies seen2.contains(w)
                    || text::texts(queue@).contains(v) by {
                    if v == node@ {
                        let k = names.index_of(w);
                        assert(seen2.contains(names[k]));
                    }
                }
                lemma_room(edges, start, seen2);
            }
        } else {
            proof {
                assert(!cycles::adjacency(edges).contains_key(node@)) by {
                    assert(!cycles::adj_model(adj@).contains_key(node@));
                }
                cycles::lemma_no_successors(edges, node@);
                assert forall|v: Seq<char>, w: Seq<char>| #[trigger] seen0.contains(v)
                    && #[trigger] cycles::successors(edges, v).contains(w) implies seen0.contains(w)
                    || rest.contains(v) by {
                    if queue0.contains(v) {
                        let k = queue0.index_of(v);
                        if k < rest.len() {
                            assert(rest[k] == v);
                        }
                    }
                }
            }
        }
    }
    proof {
        let all = text::texts(seen@);
        assert(text::texts(queue@).len() == 0);
        assert forall|name: Seq<char>| #[trigger] all.contains(name) <==> reachable(
            edges,
            start,
            name,
        ) by {
            if all.contains(name) {
                assert(reachable(edges, start, all[all.index_of(name)]));
            }
            if reachable(edges, start, name) {
                let p = choose|p: Seq<Seq<char>>| #[trigger]
                    is_walk(edges, p) && p[0] == start && p.last() == name;
                lemma_closed(edges, all, p, p.len() - 1);
            }
        }
    }
    seen
}

/// A node reaches itself, and whatever an edge leads to from what it reaches; and it
/// reaches nothing else: what it reaches is itself, or the target of an edge out of what
/// it reaches.
pub proof fn law_reach_follows_edges<C>(
    edges: Seq<Edge<C>>,
    from: Seq<char>,
    to: Seq<char>,
    k: int,
)
    ensures
        reachable(edges, from, from),
        0 <= k < edges.len() && reachable(edges, from, edges[k].from@) ==> reachable(
            edges,
            from,
            edges[k].to@,
        ),
        reachable(edges, from, to) ==> to == from || exists|i: int|
            0 <= i < edges.len() && (#[trigger] edges[i]).to@ == to && reachable(
                edges,
                from,
                edges[i].from@,
            ),
{
    let alone = seq![from];
    assert(is_walk(edges, alone) && alone[0] == from && alone.last() == from);
    if 0 <= k < edges.len() && reachable(edges, from, edges[k].from@) {
        cycles::law_followers_follow_edges(edges, edges[k].from@, edges[k].to@);
        lemma_reach_step(edges, from, edges[k].from@, edges[k].to@);
    }
    if reachable(edges, from, to) && to != from {
        let p = choose|p: Seq<Seq<char>>| #[trigger]
            is_walk(edges, p) && p[0] == from && p.last() == to;
        let n = p.len() - 1;
        let front = p.drop_last();
        assert(cycles::successors(edges, p[n - 1]).contains(p[n]));
        cycles::law_followers_follow_edges(edges, p[n - 1], to);
        let i = choose|i: int|
            0 <= i < edges.len() && (#[trigger] edges[i]).from@ == p[n - 1] && edges[i].to@ == to;
        assert forall|j: int| 0 < j < front.len() implies cycles::successors(
            edges,
            front[j - 1],
        ).contains(#[trigger] front[j]) by {
            assert(front[j] == p[j] && front[j - 1] == p[j - 1]);
            assert(cycles::successors(edges, p[j - 1]).contains(p[j]));
        }
        assert(is_walk(edges, front) && front[0] == from && front.last() == edges[i].from@);
    }
}

} // verus!
