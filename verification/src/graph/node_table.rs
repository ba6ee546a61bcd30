//! The nodes of a graph, by name, in the order in which they were added.

use indexmap::IndexMap;
use vstd::prelude::*;

verus! {

/// The insertion-ordered hash map of the `indexmap` crate.
#[verifier::external_type_specification]
#[verifier::external_body]
#[verifier::reject_recursive_types(K)]
#[verifier::reject_recursive_types(V)]
#[verifier::reject_recursive_types(S)]
pub struct ExIndexMap<K, V, S>(IndexMap<K, V, S>);

/// The entries of a map from names to positions, in insertion order.
pub uninterp spec fn name_index(m: IndexMap<String, usize>) -> Seq<(Seq<char>, usize)>;

/// `IndexMap::new`: the map has no entries.
#[verifier::external_body]
fn index_new() -> (m: IndexMap<String, usize>)
    ensures
        name_index(m) == Seq::<(Seq<char>, usize)>::empty(),
{
    IndexMap::new()
}

/// `IndexMap::get`: the value of the entry with that key, if there is one.
#[verifier::external_body]
fn index_get(m: &IndexMap<String, usize>, name: &str) -> (at: Option<usize>)
    ensures
        match at {
            Some(v) => exists|i: int|
                0 <= i < name_index(*m).len() && #[trigger] name_index(*m)[i] == (name@, v),
            None => forall|i: int|
                0 <= i < name_index(*m).len() ==> (#[trigger] name_index(*m)[i]).0 != name@,
        },
{
    m.get(name).copied()
}

/// `IndexMap::insert` with a key that is not in the map: the entry goes to the
/// end, and nothing is replaced.
#[verifier::external_body]
fn index_insert(m: &mut IndexMap<String, usize>, name: String, at: usize) -> (previous: Option<usize>)
    requires
        forall|i: int|
            0 <= i < name_index(*old(m)).len() ==> (#[trigger] name_index(*old(m))[i]).0 != name@,
    ensures
        name_index(*final(m)) == name_index(*old(m)).push((name@, at)),
        previous is None,
{
    m.insert(name, at)
}

/// `IndexMap::get_index`: the key of the entry at a position in insertion order.
#[verifier::external_body]
fn index_key(m: &IndexMap<String, usize>, i: usize) -> (key: Option<&String>)
    ensures
        match key {
            Some(k) => i < name_index(*m).len() && k@ == name_index(*m)[i as int].0,
            None => i >= name_index(*m).len(),
        },
{
    match m.get_index(i) {
        Some(entry) => Some(entry.0),
        None => None,
    }
}

/// Whether a sequence of named things holds a name.
pub open spec fn has_node<N>(nodes: Seq<(Seq<char>, N)>, name: Seq<char>) -> bool {
    exists|i: int| 0 <= i < nodes.len() && (#[trigger] nodes[i]).0 == name
}

/// Where a sequence of named things holds a name.
pub open spec fn node_position<N>(nodes: Seq<(Seq<char>, N)>, name: Seq<char>) -> int {
    choose|i: int| 0 <= i < nodes.len() && (#[trigger] nodes[i]).0 == name
}

/// What has that name in a sequence of named things.
pub open spec fn node_named<N>(nodes: Seq<(Seq<char>, N)>, name: Seq<char>) -> N {
    nodes[node_position(nodes, name)].1
}

/// The names, in order.
pub open spec fn node_names<N>(nodes: Seq<(Seq<char>, N)>) -> Seq<Seq<char>> {
    nodes.map_values(|e: (Seq<char>, N)| e.0)
}

/// The sequence with a thing of that name put in: in the place of the one that
/// had the name, or at the end.
pub open spec fn with_node<N>(nodes: Seq<(Seq<char>, N)>, name: Seq<char>, kind: N) -> Seq<
    (Seq<char>, N),
> {
    if has_node(nodes, name) {
        nodes.update(node_position(nodes, name), (name, kind))
    } else {
        nodes.push((name, kind))
    }
}

/// No name occurs twice.
pub open spec fn distinct_names<N>(nodes: Seq<(Seq<char>, N)>) -> bool {
    forall|i: int, j: int|
        0 <= i < j < nodes.len() ==> (#[trigger] nodes[i]).0 != (#[trigger] nodes[j]).0
}

/// Nodes by name. A name keeps the place at which it was first added.
pub struct NodeTable<N> {
    index: IndexMap<String, usize>,
    kinds: Vec<N>,
}

impl<N> View for NodeTable<N> {
    type V = Seq<(Seq<char>, N)>;

    /// The names with their nodes, in the order in which the names were added.
    closed spec fn view(&self) -> Seq<(Seq<char>, N)> {
        Seq::new(self.kinds@.len(), |i: int| (name_index(self.index)[i].0, self.kinds@[i]))
    }
}

impl<N> NodeTable<N> {
    #[verifier::type_invariant]
    spec fn well_formed(self) -> bool {
        &&& name_index(self.index).len() == self.kinds@.len()
        &&& forall|i: int|
            0 <= i < self.kinds@.len() ==> (#[trigger] name_index(self.index)[i]).1 == i
        &&& forall|i: int, j: int|
            0 <= i < j < self.kinds@.len() ==> (#[trigger] name_index(self.index)[i]).0 != (
            #[trigger] name_index(self.index)[j]).0
    }

    /// No nodes.
    pub fn new() -> (table: Self)
        ensures
            table@ == Seq::<(Seq<char>, N)>::empty(),
    {
        let table = NodeTable { index: index_new(), kinds: Vec::new() };
        assert(table@ =~= Seq::empty());
        table
    }

    fn position(&self, name: &str) -> (at: Option<usize>)
        ensures
            match at {
                Some(i) => i < self@.len() && self@[i as int].0 == name@ && has_node(self@, name@)
                    && node_position(self@, name@) == i && self.kinds@.len() == self@.len(),
                None => !has_node(self@, name@) && forall|i: int|
                    0 <= i < name_index(self.index).len() ==> (#[trigger] name_index(
                        self.index,
                    )[i]).0 != name@,
            },
    {
        proof {
            use_type_invariant(self);
        }
        let at = index_get(&self.index, name);
        proof {
            match at {
                Some(v) => {
                    let i = choose|i: int|
                        0 <= i < name_index(self.index).len() && #[trigger] name_index(
                            self.index,
                        )[i] == (name@, v);
                    assert(i == v);
                    assert(self@[v as int].0 == name@);
                    let p = node_position(self@, name@);
                    assert(0 <= p < self@.len() && self@[p].0 == name@);
                    assert(name_index(self.index)[p].0 == name@);
                    if p < i {
                        assert(name_index(self.index)[p].0 != name_index(self.index)[i].0);
                    } else if i < p {
                        assert(name_index(self.index)[i].0 != name_index(self.index)[p].0);
                    }
                },
                None => {
                    if has_node(self@, name@) {
                        let i = choose|i: int| 0 <= i < self@.len() && (#[trigger] self@[i]).0 == name@;
                        assert(name_index(self.index)[i].0 == name@);
                    }
                },
            }
        }
        at
    }

    /// The number of nodes.
    pub fn len(&self) -> (n: usize)
        ensures
            n == self@.len(),
    {
        self.kinds.len()
    }

    /// The node of a name.
    pub fn get(&self, name: &str) -> (node: Option<&N>)
        ensures
            match node {
                Some(n) => has_node(self@, name@) && *n == node_named(self@, name@),
                None => !has_node(self@, name@),
            },
    {
        match self.position(name) {
            Some(i) => Some(&self.kinds[i]),
            None => None,
        }
    }

    /// Whether there is a node of a name.
    pub fn contains(&self, name: &str) -> (found: bool)
        ensures
            found == has_node(self@, name@),
    {
        self.position(name).is_some()
    }

    /// The name at a place in the order.
    pub fn name_at(&self, i: usize) -> (name: &str)
        requires
            i < self@.len(),
        ensures
            name@ == self@[i as int].0,
    {
        proof {
            use_type_invariant(self);
        }
        match index_key(&self.index, i) {
            Some(name) => name.as_str(),
            None => "",
        }
    }

    /// The node at a place in the order.
    pub fn node_at(&self, i: usize) -> (node: &N)
        requires
            i < self@.len(),
        ensures
            *node == self@[i as int].1,
    {
        &self.kinds[i]
    }

    /// The names, in order. None occurs twice.
    pub fn names(&self) -> (names: Vec<String>)
        ensures
            crate::text::texts(names@) == node_names(self@),
            distinct_names(self@),
    {
        proof {
            use_type_invariant(self);
        }
        let mut names: Vec<String> = Vec::new();
        let mut i: usize = 0;
        assert(crate::text::texts(names@) =~= node_names(self@).take(0));
        while i < self.kinds.len()
            invariant
                i <= self@.len(),
                self@.len() == self.kinds@.len(),
                crate::text::texts(names@) == node_names(self@).take(i as int),
            decreases self@.len() - i,
        {
            let name = self.name_at(i).to_owned();
            proof {
                crate::text::lemma_texts_push(names@, name);
                assert(node_names(self@).take(i + 1) =~= node_names(self@).take(i as int).push(name@));
            }
            names.push(name);
            i += 1;
        }
        assert(node_names(self@).take(self@.len() as int) =~= node_names(self@));
        assert forall|i: int, j: int| 0 <= i < j < self@.len() implies (#[trigger] self@[i]).0 != (
        #[trigger] self@[j]).0 by {
            assert(name_index(self.index)[i].0 != name_index(self.index)[j].0);
        }
        names
    }

    /// Puts a node in under a name. One that had the name is replaced, and its
    /// place is kept.
    pub fn insert(&mut self, name: &str, kind: N)
        ensures
            final(self)@ == with_node(old(self)@, name@, kind),
    {
        proof {
            use_type_invariant(&*self);
        }
        let ghost before = self@;
        let at = self.position(name);
        let mut taken = NodeTable::new();
        core::mem::swap(&mut taken, self);
        let NodeTable { mut index, mut kinds } = taken;
        match at {
            Some(i) => {
                kinds.push(kind);
                kinds.swap_remove(i);
            },
            None => {
                index_insert(&mut index, name.to_owned(), kinds.len());
                kinds.push(kind);
            },
        }
        let table = NodeTable { index, kinds };
        proof {
            assert(table@ =~= with_node(before, name@, kind));
        }
        *self = table;
    }
}

/// A node that was put in has its name, and a new name comes last; every other name
/// has the node that it had, in the order that it had.
pub proof fn law_nodes_are_kept<N>(nodes: Seq<(Seq<char>, N)>, name: Seq<char>, kind: N)
    requires
        distinct_names(nodes),
    ensures
        distinct_names(with_node(nodes, name, kind)),
        has_node(with_node(nodes, name, kind), name),
        node_named(with_node(nodes, name, kind), name) == kind,
        forall|other: Seq<char>|
            other != name ==> #[trigger] has_node(with_node(nodes, name, kind), other) == has_node(
                nodes,
                other,
            ),
        forall|other: Seq<char>|
            other != name && has_node(nodes, other) ==> #[trigger] node_named(
                with_node(nodes, name, kind),
                other,
            ) == node_named(nodes, other),
        node_names(with_node(nodes, name, kind)) == (if node_names(nodes).contains(name) {
            node_names(nodes)
        } else {
            node_names(nodes).push(name)
        }),
{
    let after = with_node(nodes, name, kind);
    let names = node_names(nodes);
    assert(names.contains(name) <==> has_node(nodes, name)) by {
        if names.contains(name) {
            assert(nodes[names.index_of(name)].0 == name);
        }
        if has_node(nodes, name) {
            assert(names[node_position(nodes, name)] == name);
        }
    }
    assert(node_names(after) =~= if names.contains(name) {
        names
    } else {
        names.push(name)
    });
    assert(distinct_names(after)) by {
        assert forall|i: int, j: int| 0 <= i < j < after.len() implies (#[trigger] after[i]).0 != (
        #[trigger] after[j]).0 by {
            assert(after[i].0 == node_names(after)[i]);
            assert(after[j].0 == node_names(after)[j]);
            if j < nodes.len() {
                assert(nodes[i].0 != nodes[j].0);
            } else {
                assert(nodes[i].0 != name);
            }
        }
    }
    let at = if has_node(nodes, name) {
        node_position(nodes, name)
    } else {
        nodes.len() as int
    };
    assert(after[at] == (name, kind));
    lemma_position(after, at);
    assert forall|other: Seq<char>| other != name implies #[trigger] has_node(after, other)
        == has_node(nodes, other) by {
        if has_node(nodes, other) {
            let i = node_position(nodes, other);
            assert(after[i] == nodes[i]);
        }
        if has_node(after, other) {
            let i = node_position(after, other);
            assert(after[i] == nodes[i]);
        }
    }
    assert forall|other: Seq<char>| other != name && has_node(nodes, other) implies #[trigger] node_named(
        after,
        other,
    ) == node_named(nodes, other) by {
        let i = node_position(nodes, other);
        assert(after[i] == nodes[i]);
        lemma_position(after, i);
    }
}

proof fn lemma_position<N>(nodes: Seq<(Seq<char>, N)>, i: int)
    requires
        distinct_names(nodes),
        0 <= i < nodes.len(),
    ensures
        has_node(nodes, nodes[i].0),
        node_position(nodes, nodes[i].0) == i,
{
    let p = node_position(nodes, nodes[i].0);
    if p < i {
        assert(nodes[p].0 != nodes[i].0);
    } else if i < p {
        assert(nodes[i].0 != nodes[p].0);
    }
}

/// What a table has under a name is the node that stands there with that name.
pub proof fn law_nodes_are_found<N>(nodes: Seq<(Seq<char>, N)>, i: int, name: Seq<char>)
    requires
        distinct_names(nodes),
        0 <= i < nodes.len(),
    ensures
        nodes[i].0 == name ==> has_node(nodes, name) && node_named(nodes, name) == nodes[i].1,
        !has_node(nodes, name) ==> nodes[i].0 != name,
        node_names(nodes)[i] == nodes[i].0,
{
    lemma_position(nodes, i);
}

} // verus!
