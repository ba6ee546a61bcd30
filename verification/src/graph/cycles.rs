//! The cycles of a graph.

use vstd::prelude::*;

use crate::graph::graph_core;
use crate::graph::graph_core::{Edge, Graph};
use crate::graph::node_table;
use crate::string_map::StringMap;
use crate::text;

verus! {

/// Which names follow which, as a map.
pub open spec fn adj_model(adj: Map<Seq<char>, Vec<String>>) -> Map<Seq<char>, Seq<Seq<char>>> {
    adj.map_values(|v: Vec<String>| text::texts(v@))
}

/// The texts of lists of strings.
pub open spec fn lists(items: Seq<Vec<String>>) -> Seq<Seq<Seq<char>>> {
    items.map_values(|v: Vec<String>| text::texts(v@))
}

/// The targets of the edges that leave a node, in order.
pub open spec fn successors<C>(edges: Seq<Edge<C>>, node: Seq<char>) -> Seq<Seq<char>>
    decreases edges.len(),
{
    if edges.len() == 0 {
        Seq::empty()
    } else if edges.last().from@ == node {
        successors(edges.drop_last(), node).push(edges.last().to@)
    } else {
        successors(edges.drop_last(), node)
    }
}

/// The names that follow a name.
pub open spec fn next_names(adj: Map<Seq<char>, Seq<Seq<char>>>, name: Seq<char>) -> Seq<
    Seq<char>,
> {
    if adj.contains_key(name) {
        adj[name]
    } else {
        Seq::empty()
    }
}

/// Which nodes follow which: every node with outgoing edges, with their targets.
pub open spec fn adjacency<C>(edges: Seq<Edge<C>>) -> Map<Seq<char>, Seq<Seq<char>>> {
    Map::new(
        |k: Seq<char>| graph_core::has_exit(edges, k),
        |k: Seq<char>| successors(edges, k),
    )
}

/// How many names that have followers are not on the path.
pub open spec fn open_names(adj: Map<Seq<char>, Seq<Seq<char>>>, path: Seq<Seq<char>>) -> nat {
    adj.dom().filter(|k: Seq<char>| !path.contains(k)).len()
}

pub proof fn lemma_open_names(
    adj: Map<Seq<char>, Seq<Seq<char>>>,
    path: Seq<Seq<char>>,
    name: Seq<char>,
)
    requires
        adj.dom().finite(),
        adj.contains_key(name),
        !path.contains(name),
    ensures
        open_names(adj, path.push(name)) < open_names(adj, path),
{
    let a = adj.dom().filter(|k: Seq<char>| !path.contains(k));
    let b = adj.dom().filter(|k: Seq<char>| !path.push(name).contains(k));
    assert(forall|k: Seq<char>| path.push(name).contains(k) <==> path.contains(k) || k == name) by {
        assert forall|k: Seq<char>| path.push(name).contains(k) <==> path.contains(k) || k == name by {
            if path.contains(k) {
                let i = path.index_of(k);
                assert(path.push(name)[i] == k);
            }
            if k == name {
                assert(path.push(name)[path.len() as int] == k);
            }
        }
    }
    assert(b =~= a.remove(name));
    assert(a.contains(name));
}

/// The cycles that a depth-first search finds: those through names after `start`
/// in the order of texts, that begin with the path, go on with `current` and end
/// before `start` comes again.
pub open spec fn cycles_through(
    adj: Map<Seq<char>, Seq<Seq<char>>>,
    start: Seq<char>,
    current: Seq<char>,
    path: Seq<Seq<char>>,
) -> Seq<Seq<Seq<char>>>
    decreases open_names(adj, path), 0nat,
    when adj.dom().finite()
{
    if path.contains(current) || next_names(adj, current).len() == 0 {
        Seq::empty()
    } else {
        proof {
            lemma_open_names(adj, path, current);
        }
        cycles_over(adj, start, path.push(current), next_names(adj, current))
    }
}

/// The cycles that go on from the path with one of the names given.
pub open spec fn cycles_over(
    adj: Map<Seq<char>, Seq<Seq<char>>>,
    start: Seq<char>,
    path: Seq<Seq<char>>,
    names: Seq<Seq<char>>,
) -> Seq<Seq<Seq<char>>>
    decreases open_names(adj, path), names.len(),
    when adj.dom().finite()
{
    if names.len() == 0 {
        Seq::empty()
    } else {
        let name = names.last();
        cycles_over(adj, start, path, names.drop_last()) + (if name == start {
            seq![path]
        } else if text::text_less(start, name) && !path.contains(name) {
            cycles_through(adj, start, name, path)
        } else {
            Seq::empty()
        })
    }
}

/// The cycles of a graph, by the node that comes first in the order of texts, the
/// nodes in the order given.
pub open spec fn all_cycles(
    adj: Map<Seq<char>, Seq<Seq<char>>>,
    names: Seq<Seq<char>>,
) -> Seq<Seq<Seq<char>>>
    decreases names.len(),
{
    if names.len() == 0 {
        Seq::empty()
    } else {
        all_cycles(adj, names.drop_last()) + cycles_through(
            adj,
            names.last(),
            names.last(),
            Seq::empty(),
        )
    }
}

/// A cycle of names, none twice, each followed by the next and the last by the
/// first, the first being the least. A name that follows itself is a cycle.
pub open spec fn is_cycle(adj: Map<Seq<char>, Seq<Seq<char>>>, c: Seq<Seq<char>>) -> bool {
    &&& c.len() >= 1
    &&& c.no_duplicates()
    &&& forall|i: int| 0 < i < c.len() ==> text::text_less(c[0], #[trigger] c[i])
    &&& forall|i: int|
        0 < i < c.len() ==> next_names(adj, c[i - 1]).contains(#[trigger] c[i])
    &&& next_names(adj, c.last()).contains(c[0])
}

/// A path that may grow into a cycle from `start`.
pub open spec fn is_path(
    adj: Map<Seq<char>, Seq<Seq<char>>>,
    start: Seq<char>,
    p: Seq<Seq<char>>,
) -> bool {
    &&& p.len() >= 1
    &&& p[0] == start
    &&& p.no_duplicates()
    &&& forall|i: int| 0 < i < p.len() ==> text::text_less(start, #[trigger] p[i])
    &&& forall|i: int|
        0 < i < p.len() ==> next_names(adj, p[i - 1]).contains(#[trigger] p[i])
}

proof fn lemma_through_sound(
    adj: Map<Seq<char>, Seq<Seq<char>>>,
    start: Seq<char>,
    current: Seq<char>,
    path: Seq<Seq<char>>,
)
    requires
        adj.dom().finite(),
        is_path(adj, start, path.push(current)),
    ensures
        forall|k: int|
            0 <= k < cycles_through(adj, start, current, path).len() ==> is_cycle(
                adj,
                #[trigger] cycles_through(adj, start, current, path)[k],
            ) && cycles_through(adj, start, current, path)[k][0] == start,
    decreases open_names(adj, path), 0nat,
{
    let names = next_names(adj, current);
    let grown = path.push(current);
    if !path.contains(current) && names.len() > 0 {
        lemma_open_names(adj, path, current);
        assert forall|i: int| 0 <= i < names.len() implies names.contains(#[trigger] names[i]) by {}
        lemma_over_sound(adj, start, grown, names);
        assert(cycles_through(adj, start, current, path) == cycles_over(adj, start, grown, names));
    } else {
        assert(cycles_through(adj, start, current, path).len() == 0);
    }
}

proof fn lemma_over_sound(
    adj: Map<Seq<char>, Seq<Seq<char>>>,
    start: Seq<char>,
    path: Seq<Seq<char>>,
    names: Seq<Seq<char>>,
)
    requires
        adj.dom().finite(),
        is_path(adj, start, path),
        forall|i: int|
            0 <= i < names.len() ==> next_names(adj, path.last()).contains(#[trigger] names[i]),
    ensures
        forall|k: int|
            0 <= k < cycles_over(adj, start, path, names).len() ==> is_cycle(
                adj,
                #[trigger] cycles_over(adj, start, path, names)[k],
            ) && cycles_over(adj, start, path, names)[k][0] == start,
    decreases open_names(adj, path), names.len(),
{
    if names.len() > 0 {
        let front = names.drop_last();
        let name = names.last();
        assert forall|i: int| 0 <= i < front.len() implies next_names(adj, path.last()).contains(
            #[trigger] front[i],
        ) by {
            assert(front[i] == names[i]);
        }
        lemma_over_sound(adj, start, path, front);
        assert(next_names(adj, path.last()).contains(names[names.len() - 1]));
        let a = cycles_over(adj, start, path, front);
        let all = cycles_over(adj, start, path, names);
        if name == start {
            assert(is_cycle(adj, path));
            assert forall|k: int| 0 <= k < all.len() implies is_cycle(adj, #[trigger] all[k])
                && all[k][0] == start by {
                if k < a.len() {
                    assert(all[k] == a[k]);
                } else {
                    assert(all[k] == path);
                }
            }
        } else if text::text_less(start, name) && !path.contains(name) {
            let grown = path.push(name);
            assert forall|i: int, j: int| 0 <= i < grown.len() && 0 <= j < grown.len() && i != j implies grown[i]
                != grown[j] by {
                if i == path.len() {
                    assert(path.contains(path[j]));
                } else if j == path.len() {
                    assert(path.contains(path[i]));
                }
            }
            assert forall|i: int| 0 < i < grown.len() implies next_names(
                adj,
                grown[i - 1],
            ).contains(#[trigger] grown[i]) by {
                if i < path.len() {
                    assert(grown[i] == path[i] && grown[i - 1] == path[i - 1]);
                }
            }
            lemma_through_sound(adj, start, name, path);
            let b = cycles_through(adj, start, name, path);
            assert forall|k: int| 0 <= k < all.len() implies is_cycle(adj, #[trigger] all[k])
                && all[k][0] == start by {
                if k < a.len() {
                    assert(all[k] == a[k]);
                } else {
                    assert(all[k] == b[k - a.len()]);
                }
            }
        } else {
            assert(all =~= a);
        }
    }
}

proof fn lemma_through_complete(
    adj: Map<Seq<char>, Seq<Seq<char>>>,
    c: Seq<Seq<char>>,
    k: int,
)
    requires
        adj.dom().finite(),
        is_cycle(adj, c),
        1 <= k <= c.len(),
    ensures
        cycles_through(adj, c[0], c[k - 1], c.take(k - 1)).contains(c),
    decreases c.len() - k,
{
    let path = c.take(k - 1);
    let current = c[k - 1];
    let grown = c.take(k);
    let names = next_names(adj, current);
    let follower = if k == c.len() {
        c[0]
    } else {
        c[k]
    };
    assert(path.push(current) =~= grown);
    assert(!path.contains(current)) by {
        if path.contains(current) {
            let i = path.index_of(current);
            assert(c[i] == c[k - 1]);
        }
    }
    assert(names.contains(follower));
    let j = names.index_of(follower);
    if k < c.len() {
        lemma_through_complete(adj, c, k + 1);
        assert(!grown.contains(follower)) by {
            if grown.contains(follower) {
                let i = grown.index_of(follower);
                assert(c[i] == c[k]);
            }
        }
        assert(follower != c[0]);
    } else {
        assert(grown =~= c);
    }
    lemma_over_contains(adj, c[0], grown, names, j, c);
}

proof fn lemma_over_contains(
    adj: Map<Seq<char>, Seq<Seq<char>>>,
    start: Seq<char>,
    path: Seq<Seq<char>>,
    names: Seq<Seq<char>>,
    j: int,
    c: Seq<Seq<char>>,
)
    requires
        adj.dom().finite(),
        0 <= j < names.len(),
        (names[j] == start && path == c) || (names[j] != start
            && text::text_less(start, names[j]) && !path.contains(names[j]) && cycles_through(
            adj,
            start,
            names[j],
            path,
        ).contains(c)),
    ensures
        cycles_over(adj, start, path, names).contains(c),
    decreases names.len(),
{
    let front = names.drop_last();
    let all = cycles_over(adj, start, path, names);
    let a = cycles_over(adj, start, path, front);
    if j < front.len() {
        assert(front[j] == names[j]);
        lemma_over_contains(adj, start, path, front, j, c);
        let i = a.index_of(c);
        assert(all[i] == c);
    } else if names[j] == start {
        assert(all[a.len() as int] == c);
    } else {
        let b = cycles_through(adj, start, names[j], path);
        let i = b.index_of(c);
        assert(all[a.len() + i] == c);
    }
}

/// The search finds the cycles of the graph that begin with one of the names, all
/// of them and nothing else.
pub proof fn law_cycles_found(
    adj: Map<Seq<char>, Seq<Seq<char>>>,
    names: Seq<Seq<char>>,
    c: Seq<Seq<char>>,
)
    requires
        adj.dom().finite(),
    ensures
        all_cycles(adj, names).contains(c) <==> is_cycle(adj, c) && names.contains(c[0]),
    decreases names.len(),
{
    if names.len() > 0 {
        let front = names.drop_last();
        let name = names.last();
        let a = all_cycles(adj, front);
        let b = cycles_through(adj, name, name, Seq::empty());
        let all = all_cycles(adj, names);
        law_cycles_found(adj, front, c);
        assert(is_path(adj, name, Seq::<Seq<char>>::empty().push(name)));
        lemma_through_sound(adj, name, name, Seq::empty());
        if all.contains(c) {
            let i = all.index_of(c);
            if i < a.len() {
                assert(a[i] == c);
                let j = front.index_of(c[0]);
                assert(names[j] == c[0]);
            } else {
                assert(b[i - a.len()] == c);
                assert(names[names.len() - 1] == c[0]);
            }
        }
        if is_cycle(adj, c) && names.contains(c[0]) {
            let j = names.index_of(c[0]);
            if j < front.len() {
                assert(front[j] == c[0]);
                let i = a.index_of(c);
                assert(all[i] == c);
            } else {
                lemma_through_complete(adj, c, 1);
                assert(c.take(0) =~= Seq::empty());
                let i = b.index_of(c);
                assert(all[a.len() + i] == c);
            }
        }
    }
}

proof fn lemma_concat_once<A>(a: Seq<A>, b: Seq<A>)
    requires
        a.no_duplicates(),
        b.no_duplicates(),
        forall|i: int, j: int|
            0 <= i < a.len() && 0 <= j < b.len() ==> #[trigger] a[i] != #[trigger] b[j],
    ensures
        (a + b).no_duplicates(),
{
    let all = a + b;
    assert forall|i: int, j: int| 0 <= i < all.len() && 0 <= j < all.len() && i != j implies all[i]
        != all[j] by {
        assert(i < a.len() ==> all[i] == a[i]);
        assert(i >= a.len() ==> all[i] == b[i - a.len()]);
        assert(j < a.len() ==> all[j] == a[j]);
        assert(j >= a.len() ==> all[j] == b[j - a.len()]);
    }
}

proof fn lemma_through_once(
    adj: Map<Seq<char>, Seq<Seq<char>>>,
    start: Seq<char>,
    current: Seq<char>,
    path: Seq<Seq<char>>,
)
    requires
        adj.dom().finite(),
        forall|k: Seq<char>| (#[trigger] next_names(adj, k)).no_duplicates(),
    ensures
        cycles_through(adj, start, current, path).no_duplicates(),
        forall|k: int|
            0 <= k < cycles_through(adj, start, current, path).len() ==> ({
                let c = #[trigger] cycles_through(adj, start, current, path)[k];
                c.len() > path.len() && c.take(path.len() as int) == path && c[path.len() as int]
                    == current
            }),
    decreases open_names(adj, path), 0nat,
{
    let all = cycles_through(adj, start, current, path);
    let names = next_names(adj, current);
    let grown = path.push(current);
    if !path.contains(current) && names.len() > 0 {
        lemma_open_names(adj, path, current);
        lemma_over_once(adj, start, grown, names);
        assert(all == cycles_over(adj, start, grown, names));
        assert forall|k: int| 0 <= k < all.len() implies ({
            let c = #[trigger] all[k];
            c.len() > path.len() && c.take(path.len() as int) == path && c[path.len() as int]
                == current
        }) by {
            let c = all[k];
            assert(c.take(grown.len() as int) =~= grown);
            assert(c.take(path.len() as int) =~= grown.take(path.len() as int));
            assert(grown.take(path.len() as int) =~= path);
            assert(c[path.len() as int] == c.take(grown.len() as int)[path.len() as int]);
        }
    } else {
        assert(all.len() == 0);
    }
}

proof fn lemma_over_once(
    adj: Map<Seq<char>, Seq<Seq<char>>>,
    start: Seq<char>,
    path: Seq<Seq<char>>,
    names: Seq<Seq<char>>,
)
    requires
        adj.dom().finite(),
        forall|k: Seq<char>| (#[trigger] next_names(adj, k)).no_duplicates(),
        names.no_duplicates(),
    ensures
        cycles_over(adj, start, path, names).no_duplicates(),
        forall|k: int|
            0 <= k < cycles_over(adj, start, path, names).len() ==> ({
                let c = #[trigger] cycles_over(adj, start, path, names)[k];
                &&& c.len() >= path.len()
                &&& c.take(path.len() as int) == path
                &&& if c.len() == path.len() {
                    names.contains(start)
                } else {
                    c[path.len() as int] != start && names.contains(c[path.len() as int])
                }
            }),
    decreases open_names(adj, path), names.len(),
{
    if names.len() > 0 {
        let front = names.drop_last();
        let name = names.last();
        let n = path.len() as int;
        lemma_over_once(adj, start, path, front);
        let a = cycles_over(adj, start, path, front);
        let b = if name == start {
            seq![path]
        } else if text::text_less(start, name) && !path.contains(name) {
            cycles_through(adj, start, name, path)
        } else {
            Seq::empty()
        };
        let all = cycles_over(adj, start, path, names);
        assert(all == a + b);
        assert(!front.contains(name)) by {
            if front.contains(name) {
                let i = front.index_of(name);
                assert(names[i] == names[names.len() - 1]);
            }
        }
        assert(names[names.len() - 1] == name);
        if name != start && text::text_less(start, name) && !path.contains(name) {
            lemma_through_once(adj, start, name, path);
        }
        assert(path.take(n) =~= path);
        assert forall|i: int, j: int| 0 <= i < a.len() && 0 <= j < b.len() implies #[trigger] a[i]
            != #[trigger] b[j] by {
            if name == start {
                assert(b[j] == path);
            }
        }
        lemma_concat_once(a, b);
        assert forall|k: int| 0 <= k < all.len() implies ({
            let c = #[trigger] all[k];
            &&& c.len() >= path.len()
            &&& c.take(path.len() as int) == path
            &&& if c.len() == path.len() {
                names.contains(start)
            } else {
                c[path.len() as int] != start && names.contains(c[path.len() as int])
            }
        }) by {
            let c = all[k];
            if k < a.len() {
                assert(c == a[k]);
                if front.contains(start) {
                    assert(names[front.index_of(start)] == start);
                }
                if c.len() > n && front.contains(c[n]) {
                    assert(names[front.index_of(c[n])] == c[n]);
                }
            } else {
                assert(c == b[k - a.len()]);
            }
        }
    }
}

proof fn lemma_all_once(adj: Map<Seq<char>, Seq<Seq<char>>>, names: Seq<Seq<char>>)
    requires
        adj.dom().finite(),
        forall|k: Seq<char>| (#[trigger] next_names(adj, k)).no_duplicates(),
        names.no_duplicates(),
    ensures
        all_cycles(adj, names).no_duplicates(),
        forall|k: int|
            0 <= k < all_cycles(adj, names).len() ==> (#[trigger] all_cycles(adj, names)[k]).len()
                > 0 && names.contains(all_cycles(adj, names)[k][0]),
    decreases names.len(),
{
    if names.len() > 0 {
        let front = names.drop_last();
        let name = names.last();
        let a = all_cycles(adj, front);
        let b = cycles_through(adj, name, name, Seq::empty());
        let all = all_cycles(adj, names);
        lemma_all_once(adj, front);
        lemma_through_once(adj, name, name, Seq::empty());
        assert(all == a + b);
        assert(names[names.len() - 1] == name);
        assert forall|i: int, j: int| 0 <= i < a.len() && 0 <= j < b.len() implies #[trigger] a[i]
            != #[trigger] b[j] by {
            if a[i] == b[j] {
                let k = front.index_of(name);
                assert(names[k] == names[names.len() - 1]);
            }
        }
        lemma_concat_once(a, b);
        assert forall|k: int| 0 <= k < all.len() implies (#[trigger] all[k]).len() > 0
            && names.contains(all[k][0]) by {
            if k < a.len() {
                assert(all[k] == a[k]);
                assert(names[front.index_of(a[k][0])] == a[k][0]);
            } else {
                assert(all[k] == b[k - a.len()]);
            }
        }
    }
}

/// No two edges share both ends.
pub open spec fn distinct_edges<C>(edges: Seq<Edge<C>>) -> bool {
    forall|i: int, j: int|
        0 <= i < j < edges.len() ==> (#[trigger] edges[i]).from@ != (#[trigger] edges[j]).from@
            || edges[i].to@ != edges[j].to@
}

/// An edge leads from a node to a target.
pub open spec fn leads<C>(edges: Seq<Edge<C>>, node: Seq<char>, to: Seq<char>) -> bool {
    exists|i: int|
        0 <= i < edges.len() && (#[trigger] edges[i]).from@ == node && edges[i].to@ == to
}

proof fn lemma_successors_once<C>(edges: Seq<Edge<C>>, node: Seq<char>)
    requires
        distinct_edges(edges),
    ensures
        successors(edges, node).no_duplicates(),
        forall|k: int|
            0 <= k < successors(edges, node).len() ==> leads(
                edges,
                node,
                #[trigger] successors(edges, node)[k],
            ),
    decreases edges.len(),
{
    if edges.len() > 0 {
        let front = edges.drop_last();
        let a = successors(front, node);
        let all = successors(edges, node);
        assert(distinct_edges(front)) by {
            assert forall|i: int, j: int| 0 <= i < j < front.len() implies (#[trigger] front[i]).from@
                != (#[trigger] front[j]).from@ || front[i].to@ != front[j].to@ by {
                assert(edges[i] == front[i] && edges[j] == front[j]);
            }
        }
        lemma_successors_once(front, node);
        assert forall|k: int| 0 <= k < all.len() implies leads(edges, node, #[trigger] all[k]) by {
            if k < a.len() {
                assert(all[k] == a[k] && leads(front, node, a[k]));
                let i = choose|i: int|
                    0 <= i < front.len() && (#[trigger] front[i]).from@ == node && front[i].to@ == a[k];
                assert(edges[i] == front[i]);
            } else {
                assert(edges[edges.len() - 1].from@ == node);
            }
        }
        assert forall|x: int, y: int| 0 <= x < all.len() && 0 <= y < all.len() && x != y implies all[x]
            != all[y] by {
            if x < a.len() && y < a.len() {
                assert(a[x] != a[y]);
            } else {
                let z = if x < a.len() { x } else { y };
                assert(leads(front, node, a[z]));
                let i = choose|i: int|
                    0 <= i < front.len() && (#[trigger] front[i]).from@ == node && front[i].to@ == a[z];
                assert(edges[i] == front[i]);
                assert(edges[edges.len() - 1].from@ == node);
            }
        }
    }
}

/// Where no two edges share both ends, the search finds each cycle once.
pub proof fn law_cycles_come_once<C>(edges: Seq<Edge<C>>, names: Seq<Seq<char>>)
    requires
        adjacency(edges).dom().finite(),
        distinct_edges(edges),
        names.no_duplicates(),
    ensures
        all_cycles(adjacency(edges), names).no_duplicates(),
{
    let adj = adjacency(edges);
    assert forall|k: Seq<char>| (#[trigger] next_names(adj, k)).no_duplicates() by {
        lemma_successors_once(edges, k);
    }
    lemma_all_once(adj, names);
}

pub proof fn lemma_no_successors<C>(edges: Seq<Edge<C>>, node: Seq<char>)
    requires
        !graph_core::has_exit(edges, node),
    ensures
        successors(edges, node).len() == 0,
    decreases edges.len(),
{
    if edges.len() > 0 {
        assert(edges[edges.len() - 1].from@ != node);
        let front = edges.drop_last();
        assert(!graph_core::has_exit(front, node)) by {
            if graph_core::has_exit(front, node) {
                let j = choose|j: int| 0 <= j < front.len() && (#[trigger] front[j]).from@ == node;
                assert(edges[j].from@ == node);
            }
        }
        lemma_no_successors(front, node);
    }
}

/// The followers of every node with outgoing edges.
pub fn build_adj<N, C>(graph: &Graph<N, C>) -> (adj: StringMap<Vec<String>>)
    ensures
        adj_model(adj@) == adjacency(graph.edges@),
{
    let mut adj: StringMap<Vec<String>> = StringMap::new();
    let mut i: usize = 0;
    assert(adj_model(adj@) =~= adjacency(graph.edges@.take(0)));
    while i < graph.edges.len()
        invariant
            i <= graph.edges@.len(),
            adj_model(adj@) == adjacency(graph.edges@.take(i as int)),
        decreases graph.edges@.len() - i,
    {
        let e = &graph.edges[i];
        let ghost before = adj@;
        let ghost seen = graph.edges@.take(i as int);
        let mut list = match adj.remove(e.from.as_str()) {
            Some(list) => list,
            None => Vec::new(),
        };
        proof {
            assert(adjacency(seen).contains_key(e.from@) <==> adj_model(before).contains_key(e.from@));
            if before.contains_key(e.from@) {
                assert(adj_model(before)[e.from@] == text::texts(list@));
            } else {
                lemma_no_successors(seen, e.from@);
                assert(text::texts(list@) =~= Seq::empty());
            }
            assert(text::texts(list@) == successors(seen, e.from@));
        }
        let to = e.to.clone();
        proof {
            text::lemma_texts_push(list@, to);
        }
        list.push(to);
        let ghost grown = text::texts(list@);
        adj.insert(e.from.clone(), list);
        i += 1;
        proof {
            let all = graph.edges@.take(i as int);
            assert(all.drop_last() =~= seen);
            assert(all.last() == *e);
            assert(grown =~= successors(all, e.from@));
            assert forall|k: Seq<char>| graph_core::has_exit(all, k) <==> graph_core::has_exit(
                seen,
                k,
            ) || k == e.from@ by {
                if graph_core::has_exit(all, k) {
                    let j = choose|j: int| 0 <= j < all.len() && (#[trigger] all[j]).from@ == k;
                    if j < seen.len() {
                        assert(seen[j].from@ == k);
                    }
                }
                if graph_core::has_exit(seen, k) {
                    let j = choose|j: int| 0 <= j < seen.len() && (#[trigger] seen[j]).from@ == k;
                    assert(all[j].from@ == k);
                }
                if k == e.from@ {
                    assert(all[seen.len() as int].from@ == k);
                }
            }
            assert forall|k: Seq<char>| #[trigger] adj_model(adj@).contains_key(k) <==> adjacency(
                all,
            ).contains_key(k) by {
                assert(adj_model(before).contains_key(k) <==> adjacency(seen).contains_key(k));
            }
            assert forall|k: Seq<char>| #[trigger] adjacency(all).contains_key(k) implies adj_model(
                adj@,
            )[k] == adjacency(all)[k] by {
                assert(adj_model(adj@).contains_key(k));
                if k != e.from@ {
                    assert(adj_model(before).contains_key(k));
                    assert(adj_model(before)[k] == adjacency(seen)[k]);
                    assert(adj@[k] == before[k]);
                } else {
                    assert(adj_model(adj@)[k] == grown);
                }
            }
            assert(adj_model(adj@) =~= adjacency(all));
        }
    }
    assert(graph.edges@.take(graph.edges@.len() as int) =~= graph.edges@);
    adj
}

pub proof fn lemma_lists_push(items: Seq<Vec<String>>, item: Vec<String>)
    ensures
        lists(items.push(item)) == lists(items).push(text::texts(item@)),
{
    assert(lists(items.push(item)) =~= lists(items).push(text::texts(item@)));
}

/// Adds to `cycles` those that a depth-first search finds from `current`, on a
/// path from `start`. The path is as before when the search is done.
pub fn dfs_cycles(
    start: &str,
    current: &str,
    adj: &StringMap<Vec<String>>,
    path: &mut Vec<String>,
    cycles: &mut Vec<Vec<String>>,
)
    ensures
        final(path)@ == old(path)@,
        lists(final(cycles)@) == lists(old(cycles)@) + cycles_through(
            adj_model(adj@),
            start@,
            current@,
            text::texts(old(path)@),
        ),
    decreases open_names(adj_model(adj@), text::texts(old(path)@)),
{
    let ghost m = adj_model(adj@);
    let ghost path0 = path@;
    let ghost cycles0 = lists(cycles@);
    let count = adj.len();
    proof {
        assert(m.dom() =~= adj@.dom());
    }
    if text::holds_text(path, current) {
        assert(lists(cycles@) =~= cycles0 + cycles_through(m, start@, current@, text::texts(path0)));
        return;
    }
    let neighbors = match adj.get(current) {
        Some(list) => list,
        None => {
            assert(lists(cycles@) =~= cycles0 + cycles_through(
                m,
                start@,
                current@,
                text::texts(path0),
            ));
            return;
        },
    };
    if neighbors.len() == 0 {
        assert(lists(cycles@) =~= cycles0 + cycles_through(m, start@, current@, text::texts(path0)));
        return;
    }
    let here = current.to_owned();
    let ghost names = text::texts(neighbors@);
    proof {
        text::lemma_texts_push(path@, here);
        lemma_open_names(m, text::texts(path0), current@);
        assert(names == next_names(m, current@));
        assert(names.take(0) =~= Seq::empty());
        assert(lists(cycles@) =~= cycles0 + cycles_over(
            m,
            start@,
            text::texts(path0).push(current@),
            names.take(0),
        ));
    }
    path.push(here);
    let ghost path1 = path@;
    let mut i: usize = 0;
    while i < neighbors.len()
        invariant
            i <= neighbors@.len(),
            m == adj_model(adj@),
            m.dom().finite(),
            names == text::texts(neighbors@),
            path@ == path1,
            path0 == old(path)@,
            text::texts(path1) == text::texts(path0).push(current@),
            path1 == path0.push(path1.last()),
            open_names(m, text::texts(path1)) < open_names(m, text::texts(path0)),
            lists(cycles@) == cycles0 + cycles_over(
                m,
                start@,
                text::texts(path1),
                names.take(i as int),
            ),
        decreases neighbors@.len() - i,
    {
        let neighbor = neighbors[i].as_str();
        let ghost so_far = lists(cycles@);
        if text::same_text(neighbor, start) {
            let copy = text::copy_texts(path);
            proof {
                lemma_lists_push(cycles@, copy);
            }
            cycles.push(copy);
        } else if text::before(start, neighbor) && !text::holds_text(path, neighbor) {
            dfs_cycles(start, neighbor, adj, path, cycles);
        }
        i += 1;
        proof {
            let now = names.take(i as int);
            assert(now.drop_last() =~= names.take(i - 1));
            assert(now.last() == neighbor@);
            assert(lists(cycles@) =~= cycles0 + cycles_over(m, start@, text::texts(path1), now));
        }
    }
    path.pop();
    proof {
        assert(path@ =~= path0);
        assert(names.take(names.len() as int) =~= names);
    }
}

/// All cycles of a graph, each beginning with the node that comes first in the
/// order of texts.
pub fn find_all_cycles<N, C>(graph: &Graph<N, C>) -> (cycles: Vec<Vec<String>>)
    ensures
        lists(cycles@) == all_cycles(
            adjacency(graph.edges@),
            node_table::node_names(graph.nodes@),
        ),
        adjacency(graph.edges@).dom().finite(),
{
    let adj = build_adj(graph);
    let count = adj.len();
    let mut cycles: Vec<Vec<String>> = Vec::new();
    let ghost m = adjacency(graph.edges@);
    let ghost names = node_table::node_names(graph.nodes@);
    proof {
        assert(adj_model(adj@).dom() =~= adj@.dom());
        assert(lists(cycles@) =~= all_cycles(m, names.take(0)));
    }
    let mut i: usize = 0;
    while i < graph.nodes.len()
        invariant
            i <= graph.nodes@.len(),
            m == adj_model(adj@),
            m.dom().finite(),
            names == node_table::node_names(graph.nodes@),
            lists(cycles@) == all_cycles(m, names.take(i as int)),
        decreases graph.nodes@.len() - i,
    {
        let node = graph.nodes.name_at(i);
        let mut path: Vec<String> = Vec::new();
        assert(text::texts(path@) =~= Seq::empty());
        dfs_cycles(node, node, &adj, &mut path, &mut cycles);
        i += 1;
        proof {
            assert(names.take(i as int).drop_last() =~= names.take(i - 1));
            assert(names.take(i as int).last() == node@);
        }
    }
    assert(names.take(names.len() as int) =~= names);
    cycles
}

/// The followers of a node are the targets of the edges that leave it, in order: those of
/// a list of edges are those of its parts, and an edge alone gives its target exactly if
/// it leaves the node.
pub proof fn law_followers_are_targets<C>(
    a: Seq<Edge<C>>,
    b: Seq<Edge<C>>,
    e: Edge<C>,
    node: Seq<char>,
)
    ensures
        successors(a + b, node) == successors(a, node) + successors(b, node),
        successors(seq![e], node) == (if e.from@ == node {
            seq![e.to@]
        } else {
            Seq::empty()
        }),
    decreases b.len(),
{
    assert(successors(seq![e].drop_last(), node) =~= Seq::empty());
    assert(successors(seq![e], node) =~= if e.from@ == node {
        seq![e.to@]
    } else {
        Seq::empty()
    });
    if b.len() == 0 {
        assert(a + b =~= a);
        assert(successors(a + b, node) =~= successors(a, node) + successors(b, node));
    } else {
        assert((a + b).drop_last() =~= a + b.drop_last());
        law_followers_are_targets(a, b.drop_last(), e, node);
        assert(successors(a + b, node) =~= successors(a, node) + successors(b, node));
    }
}

/// A name follows another exactly if an edge leads from the one to the other.
pub proof fn law_followers_follow_edges<C>(edges: Seq<Edge<C>>, from: Seq<char>, to: Seq<char>)
    ensures
        successors(edges, from).contains(to) <==> exists|i: int|
            0 <= i < edges.len() && (#[trigger] edges[i]).from@ == from && edges[i].to@ == to,
        next_names(adjacency(edges), from) == successors(edges, from),
    decreases edges.len(),
{
    let all = successors(edges, from);
    if !graph_core::has_exit(edges, from) {
        lemma_no_successors(edges, from);
        assert(next_names(adjacency(edges), from) =~= all);
    }
    if edges.len() > 0 {
        let front = edges.drop_last();
        let some = successors(front, from);
        law_followers_follow_edges(front, from, to);
        assert(edges[edges.len() - 1] == edges.last());
        if all.contains(to) {
            let k = all.index_of(to);
            if k < some.len() {
                assert(some[k] == to);
                let i = choose|i: int|
                    0 <= i < front.len() && (#[trigger] front[i]).from@ == from && front[i].to@ == to;
                assert(edges[i] == front[i]);
            }
        }
        if exists|i: int|
            0 <= i < edges.len() && (#[trigger] edges[i]).from@ == from && edges[i].to@ == to {
            let i = choose|i: int|
                0 <= i < edges.len() && (#[trigger] edges[i]).from@ == from && edges[i].to@ == to;
            if i < front.len() {
                assert(front[i] == edges[i]);
                assert(all[some.index_of(to)] == to);
            } else {
                assert(all[some.len() as int] == to);
            }
        }
    }
}

/// A cycle is a closed walk: its names are all different, an edge leads from each to the
/// next and from the last to the first, and the first comes before all others in the
/// order of texts. Whatever is one is found, and whatever is found is one.
pub proof fn law_cycles_are_closed_walks<C>(
    edges: Seq<Edge<C>>,
    names: Seq<Seq<char>>,
    c: Seq<Seq<char>>,
)
    requires
        adjacency(edges).dom().finite(),
    ensures
        all_cycles(adjacency(edges), names).contains(c) <==> {
            &&& c.len() > 0
            &&& names.contains(c[0])
            &&& forall|i: int, j: int|
                0 <= i < j < c.len() ==> #[trigger] c[i] != #[trigger] c[j]
            &&& forall|i: int| 0 < i < c.len() ==> text::text_less(c[0], #[trigger] c[i])
            &&& forall|i: int|
                0 <= i < c.len() ==> leads(
                    edges,
                    #[trigger] c[i],
                    if i + 1 < c.len() {
                        c[i + 1]
                    } else {
                        c[0]
                    },
                )
        },
{
    let adj = adjacency(edges);
    law_cycles_found(adj, names, c);
    assert forall|a: Seq<char>, b: Seq<char>| #[trigger] next_names(adj, a).contains(b) <==> leads(
        edges,
        a,
        b,
    ) by {
        law_followers_follow_edges(edges, a, b);
    }
    if is_cycle(adj, c) {
        assert forall|i: int| 0 <= i < c.len() implies leads(
            edges,
            #[trigger] c[i],
            if i + 1 < c.len() {
                c[i + 1]
            } else {
                c[0]
            },
        ) by {
            if i + 1 < c.len() {
                assert(next_names(adj, c[i + 1 - 1]).contains(c[i + 1]));
            } else {
                assert(c.last() == c[i]);
            }
        }
    }
    if c.len() > 0 && (forall|i: int|
        0 <= i < c.len() ==> leads(
            edges,
            #[trigger] c[i],
            if i + 1 < c.len() {
                c[i + 1]
            } else {
                c[0]
            },
        )) {
        assert forall|i: int| 0 < i < c.len() implies next_names(adj, c[i - 1]).contains(
            #[trigger] c[i],
        ) by {
            assert(leads(edges, c[i - 1], c[i - 1 + 1]));
        }
        assert(leads(edges, c[c.len() - 1], c[0]));
        assert(next_names(adj, c.last()).contains(c[0]));
    }
}

} // verus!
