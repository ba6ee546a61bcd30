//! Building a graph step by step.

use vstd::prelude::*;

use crate::compiler::context::CompilerContext;
use crate::compiler::inline_pass;
use crate::compiler::inline_pass::InlinePass;
use crate::compiler::pass::CompilerPass;
use crate::error::{BuildError, BuildErrors};
use crate::graph::graph_core;
use crate::graph::graph_core::{Edge, EdgeAnalysis, Graph};
use crate::graph::hash;
use crate::graph::node_table;
use crate::graph::node_table::NodeTable;
use crate::node::compiled_subgraph::CompiledSubgraph;
use crate::node::node::NodeKind;
use crate::text;

verus! {

/// A graph under construction.
pub struct GraphBuilder<N, C> {
    pub name: String,
    pub nodes: NodeTable<N>,
    pub edges: Vec<Edge<C>>,
    pub start: Option<String>,
    pub end: Option<String>,
    /// A fingerprint to use in place of that of the structure.
    pub canonical_hash: Option<u64>,
    /// The names under which a node was added though there was one already.
    pub repeated: Vec<String>,
}

/// The names that were added again, after one more name was added.
pub open spec fn repeats<N>(
    before: Seq<Seq<char>>,
    nodes: Seq<(Seq<char>, N)>,
    name: Seq<char>,
) -> Seq<Seq<char>> {
    if node_table::has_node(nodes, name) {
        before.push(name)
    } else {
        before
    }
}

/// A list of errors names the repeated names, one by one.
pub open spec fn names_repeats(repeated: Seq<Seq<char>>, errors: Seq<BuildError>) -> bool {
    &&& errors.len() == repeated.len()
    &&& forall|i: int|
        0 <= i < repeated.len() ==> ((#[trigger] errors[i]) matches BuildError::DuplicateNode { id }
            && id@ == repeated[i])
}

/// The edge that was added last, for settings on it.
pub struct PendingEdge<'a, N, C> {
    pub builder: &'a mut GraphBuilder<N, C>,
    pub edge_index: usize,
}

/// A new edge has those ends and that condition, no settings, and is a fallback or not.
pub open spec fn plain_edge<C>(
    e: Edge<C>,
    from: Seq<char>,
    to: Seq<char>,
    condition: Option<C>,
    fallback: bool,
) -> bool {
    &&& e.from@ == from
    &&& e.to@ == to
    &&& e.condition == condition
    &&& e.analysis is None
    &&& e.fallback == fallback
}

/// The errors for the ends of one edge that are not nodes, one for each.
pub open spec fn missing_ends<N, C>(nodes: Seq<(Seq<char>, N)>, e: Edge<C>) -> nat {
    ((if node_table::has_node(nodes, e.from@) {
        0int
    } else {
        1int
    }) + (if node_table::has_node(nodes, e.to@) {
        0int
    } else {
        1int
    })) as nat
}

/// The edge is a fallback that leads back to the node that it leaves. That would be
/// a retry.
pub open spec fn falls_on_itself<C>(e: Edge<C>) -> bool {
    e.fallback && e.from@ == e.to@
}

/// How many errors one edge has.
pub open spec fn error_count<N, C>(nodes: Seq<(Seq<char>, N)>, e: Edge<C>) -> nat {
    missing_ends(nodes, e) + (if falls_on_itself(e) {
        1nat
    } else {
        0nat
    })
}

/// The errors of one edge: one for each end that is not a node, and one for a
/// fallback that leads back to its node.
pub open spec fn edge_errors<N, C>(
    nodes: Seq<(Seq<char>, N)>,
    e: Edge<C>,
    errors: Seq<BuildError>,
) -> bool {
    &&& errors.len() == error_count(nodes, e)
    &&& forall|i: int|
        0 <= i < missing_ends(nodes, e) ==> ((#[trigger] errors[i]) matches BuildError::MissingNode { from, to }
            && from@ == e.from@ && to@ == e.to@)
    &&& falls_on_itself(e) ==> (errors.last() matches BuildError::InvalidFallback { node, reason }
        && node@ == e.from@ && reason@ == "fallback edge points to its own node"@)
}

/// A list of errors has those of every edge, in the order of the edges.
pub open spec fn names_defects<N, C>(
    nodes: Seq<(Seq<char>, N)>,
    edges: Seq<Edge<C>>,
    errors: Seq<BuildError>,
) -> bool
    decreases edges.len(),
{
    if edges.len() == 0 {
        errors.len() == 0
    } else {
        let split = errors.len() - error_count(nodes, edges.last());
        &&& split >= 0
        &&& names_defects(nodes, edges.drop_last(), errors.take(split))
        &&& edge_errors(nodes, edges.last(), errors.skip(split))
    }
}

/// Every end of every edge is a node, and no fallback leads back to its node.
pub open spec fn edges_sound<N, C>(nodes: Seq<(Seq<char>, N)>, edges: Seq<Edge<C>>) -> bool {
    forall|i: int|
        0 <= i < edges.len() ==> node_table::has_node(nodes, (#[trigger] edges[i]).from@)
            && node_table::has_node(nodes, edges[i].to@) && !falls_on_itself(edges[i])
}

proof fn lemma_no_errors<N, C>(
    nodes: Seq<(Seq<char>, N)>,
    edges: Seq<Edge<C>>,
    errors: Seq<BuildError>,
)
    requires
        names_defects(nodes, edges, errors),
    ensures
        errors.len() == 0 <==> edges_sound(nodes, edges),
    decreases edges.len(),
{
    if edges.len() > 0 {
        let front = edges.drop_last();
        let split = errors.len() - error_count(nodes, edges.last());
        lemma_no_errors(nodes, front, errors.take(split));
        if edges_sound(nodes, edges) {
            assert forall|i: int| 0 <= i < front.len() implies node_table::has_node(
                nodes,
                (#[trigger] front[i]).from@,
            ) && node_table::has_node(nodes, front[i].to@) && !falls_on_itself(front[i]) by {
                assert(edges[i] == front[i]);
            }
            assert(edges[edges.len() - 1] == edges.last());
        }
        if errors.len() == 0 {
            assert forall|i: int| 0 <= i < edges.len() implies node_table::has_node(
                nodes,
                (#[trigger] edges[i]).from@,
            ) && node_table::has_node(nodes, edges[i].to@) && !falls_on_itself(edges[i]) by {
                if i < front.len() {
                    assert(front[i] == edges[i]);
                }
            }
        }
    }
}

impl<'a, N, C> PendingEdge<'a, N, C> {
    /// Sets a limit on visits, for the analysis of cycles.
    pub fn max_visits(self, n: usize) -> (builder: &'a mut GraphBuilder<N, C>)
        requires
            self.edge_index < self.builder.edges@.len(),
        ensures
            builder.edges@ == old(self.builder).edges@.update(
                self.edge_index as int,
                (Edge {
                    analysis: Some(EdgeAnalysis { max_visits: Some(n) }),
                    ..old(self.builder).edges@[self.edge_index as int]
                }),
            ),
            builder.name == old(self.builder).name,
            builder.nodes == old(self.builder).nodes,
            builder.start == old(self.builder).start,
            builder.end == old(self.builder).end,
            builder.canonical_hash == old(self.builder).canonical_hash,
            builder.repeated == old(self.builder).repeated,
            *final(builder) == *final(self.builder),
    {
        let builder = self.builder;
        builder.edges[self.edge_index].analysis = Some(EdgeAnalysis { max_visits: Some(n) });
        builder
    }
}

impl<N, C> GraphBuilder<N, C> {
    /// A builder with nothing in it but a name.
    pub fn new(name: &str) -> (builder: Self)
        ensures
            builder.name@ == name@,
            builder.nodes@ == Seq::<(Seq<char>, N)>::empty(),
            builder.edges@ == Seq::<Edge<C>>::empty(),
            builder.start is None,
            builder.end is None,
            builder.canonical_hash is None,
            text::texts(builder.repeated@) == Seq::<Seq<char>>::empty(),
    {
        let builder = GraphBuilder {
            name: name.to_owned(),
            nodes: NodeTable::new(),
            edges: Vec::new(),
            start: None,
            end: None,
            canonical_hash: None,
            repeated: Vec::new(),
        };
        assert(text::texts(builder.repeated@) =~= Seq::empty());
        builder
    }

    /// Sets the fingerprint.
    pub fn canonical_hash(&mut self, hash: u64) -> (builder: &mut Self)
        ensures
            *builder == (GraphBuilder { canonical_hash: Some(hash), ..*old(self) }),
            *final(self) == *final(builder),
    {
        self.canonical_hash = Some(hash);
        self
    }

    /// Sets the start node.
    pub fn start(&mut self, node: &str) -> (builder: &mut Self)
        ensures
            builder.start matches Some(s) && s@ == node@,
            *builder == (GraphBuilder { start: builder.start, ..*old(self) }),
            *final(self) == *final(builder),
    {
        self.start = Some(node.to_owned());
        self
    }

    /// Sets the end node.
    pub fn end(&mut self, node: &str) -> (builder: &mut Self)
        ensures
            builder.end matches Some(s) && s@ == node@,
            *builder == (GraphBuilder { end: builder.end, ..*old(self) }),
            *final(self) == *final(builder),
    {
        self.end = Some(node.to_owned());
        self
    }

    fn put_node(&mut self, name: &str, kind: N)
        ensures
            final(self).nodes@ == node_table::with_node(old(self).nodes@, name@, kind),
            text::texts(final(self).repeated@) == repeats(
                text::texts(old(self).repeated@),
                old(self).nodes@,
                name@,
            ),
            *final(self) == (GraphBuilder {
                nodes: final(self).nodes,
                repeated: final(self).repeated,
                ..*old(self)
            }),
    {
        if self.nodes.contains(name) {
            let again = name.to_owned();
            proof {
                text::lemma_texts_push(self.repeated@, again);
            }
            self.repeated.push(again);
        }
        self.nodes.insert(name, kind);
    }

    /// Adds a node, in the place of one of the same name if there is one. A name that
    /// is added again is noted.
    pub fn node(&mut self, name: &str, kind: N) -> (builder: &mut Self)
        ensures
            builder.nodes@ == node_table::with_node(old(self).nodes@, name@, kind),
            text::texts(builder.repeated@) == repeats(
                text::texts(old(self).repeated@),
                old(self).nodes@,
                name@,
            ),
            *builder == (GraphBuilder {
                nodes: builder.nodes,
                repeated: builder.repeated,
                ..*old(self)
            }),
            *final(self) == *final(builder),
    {
        self.put_node(name, kind);
        self
    }

    fn push_edge(
        &mut self,
        from: &str,
        to: &str,
        condition: Option<C>,
        fallback: bool,
    ) -> (pending: PendingEdge<'_, N, C>)
        ensures
            pending.edge_index == old(self).edges@.len(),
            pending.builder.edges@.len() == old(self).edges@.len() + 1,
            pending.builder.edges@.drop_last() == old(self).edges@,
            plain_edge(pending.builder.edges@.last(), from@, to@, condition, fallback),
            *pending.builder == (GraphBuilder { edges: pending.builder.edges, ..*old(self) }),
            *final(self) == *final(pending.builder),
    {
        let edge_index = self.edges.len();
        self.edges.push(
            Edge {
                from: from.to_owned(),
                to: to.to_owned(),
                condition,
                analysis: None,
                fallback,
            },
        );
        assert(self.edges@.drop_last() =~= old(self).edges@);
        PendingEdge { builder: self, edge_index }
    }

    /// Adds a normal edge.
    pub fn edge(&mut self, from: &str, to: &str) -> (pending: PendingEdge<'_, N, C>)
        ensures
            pending.edge_index == old(self).edges@.len(),
            pending.builder.edges@.len() == old(self).edges@.len() + 1,
            pending.builder.edges@.drop_last() == old(self).edges@,
            plain_edge(pending.builder.edges@.last(), from@, to@, None, false),
            *pending.builder == (GraphBuilder { edges: pending.builder.edges, ..*old(self) }),
            *final(self) == *final(pending.builder),
    {
        self.push_edge(from, to, None, false)
    }

    /// Adds a conditional edge.
    pub fn edge_if(&mut self, from: &str, to: &str, condition: C) -> (pending: PendingEdge<
        '_,
        N,
        C,
    >)
        ensures
            pending.edge_index == old(self).edges@.len(),
            pending.builder.edges@.len() == old(self).edges@.len() + 1,
            pending.builder.edges@.drop_last() == old(self).edges@,
            plain_edge(pending.builder.edges@.last(), from@, to@, Some(condition), false),
            *pending.builder == (GraphBuilder { edges: pending.builder.edges, ..*old(self) }),
            *final(self) == *final(pending.builder),
    {
        self.push_edge(from, to, Some(condition), false)
    }

    /// Adds a fallback edge.
    pub fn edge_fallback(&mut self, from: &str, to: &str) -> (pending: PendingEdge<'_, N, C>)
        ensures
            pending.edge_index == old(self).edges@.len(),
            pending.builder.edges@.len() == old(self).edges@.len() + 1,
            pending.builder.edges@.drop_last() == old(self).edges@,
            plain_edge(pending.builder.edges@.last(), from@, to@, None, true),
            *pending.builder == (GraphBuilder { edges: pending.builder.edges, ..*old(self) }),
            *final(self) == *final(pending.builder),
    {
        self.push_edge(from, to, None, true)
    }

    /// The name of the graph.
    pub fn name(&self) -> (name: &str)
        ensures
            name@ == self.name@,
    {
        self.name.as_str()
    }

    /// The fingerprint that the graph will have.
    pub open spec fn final_hash(self) -> u64 {
        match self.canonical_hash {
            Some(h) => h,
            None => hash::structural_hash(
                node_table::node_names(self.nodes@),
                hash::edge_texts(self.edges@),
            ),
        }
    }

    /// What `build` returns.
    pub open spec fn builds(self, r: Result<Graph<N, C>, BuildErrors>) -> bool {
        match r {
            Ok(g) => {
                &&& self.start == Some(g.start)
                &&& self.end == Some(g.end)
                &&& g.valid()
                &&& self.repeated@.len() == 0
                &&& edges_sound(self.nodes@, self.edges@)
                &&& g.name == self.name
                &&& g.nodes == self.nodes
                &&& g.edges == self.edges
                &&& g.canonical_hash == self.final_hash()
            },
            Err(errors) => {
                if self.start is None {
                    errors.0@ == seq![BuildError::MissingEntryPoint]
                } else if self.end is None {
                    errors.0@ == seq![BuildError::MissingExitPoint]
                } else if self.repeated@.len() > 0 || !edges_sound(self.nodes@, self.edges@) {
                    let n = self.repeated@.len() as int;
                    &&& errors.0@.len() >= n
                    &&& names_repeats(text::texts(self.repeated@), errors.0@.take(n))
                    &&& names_defects(self.nodes@, self.edges@, errors.0@.skip(n))
                } else {
                    &&& errors.0@.len() == 1
                    &&& errors.0@[0] matches BuildError::InvalidEdgeDefinition { from, to, reason }
                        && from@ == "graph"@ && to@ == "graph"@ && (graph_core::graph_defect(
                        self.nodes@,
                        self.edges@,
                        self.start->0@,
                        self.end->0@,
                    ) matches Some(m) && reason@ == "invalid graph: "@ + m)
                }
            },
        }
    }

    /// The graph, or what is wrong with it. A graph comes exactly when the start and
    /// the end are set, no name was added twice, the start, the end and the ends of
    /// every edge are nodes, and no fallback leads back to its node.
    pub fn build(self) -> (r: Result<Graph<N, C>, BuildErrors>)
        ensures
            self.builds(r),
            r is Ok <==> self.start is Some && self.end is Some && node_table::has_node(
                self.nodes@,
                self.start->0@,
            ) && node_table::has_node(self.nodes@, self.end->0@) && self.repeated@.len() == 0
                && edges_sound(self.nodes@, self.edges@),
    {
        let ghost this = self;
        let mut errors = BuildErrors::new();
        let start = match self.start {
            Some(s) => s,
            None => {
                errors.push(BuildError::MissingEntryPoint);
                assert(errors.0@ =~= seq![BuildError::MissingEntryPoint]);
                return Err(errors);
            },
        };
        let end = match self.end {
            Some(s) => s,
            None => {
                errors.push(BuildError::MissingExitPoint);
                assert(errors.0@ =~= seq![BuildError::MissingExitPoint]);
                return Err(errors);
            },
        };
        let mut k: usize = 0;
        while k < self.repeated.len()
            invariant
                k <= self.repeated@.len(),
                self.repeated == this.repeated,
                self.nodes == this.nodes,
                self.edges == this.edges,
                errors.0@.len() == k,
                forall|i: int|
                    0 <= i < k ==> ((#[trigger] errors.0@[i]) matches BuildError::DuplicateNode { id }
                        && id@ == self.repeated@[i]@),
            decreases self.repeated@.len() - k,
        {
            errors.push(BuildError::DuplicateNode { id: self.repeated[k].clone() });
            k += 1;
        }
        let ghost doubles = errors.0@;
        assert(names_repeats(text::texts(this.repeated@), doubles));
        let mut defects = BuildErrors::new();
        let mut i: usize = 0;
        assert(self.edges@.take(0) =~= Seq::empty());
        while i < self.edges.len()
            invariant
                i <= self.edges@.len(),
                self.nodes == this.nodes,
                self.edges == this.edges,
                names_defects(self.nodes@, self.edges@.take(i as int), defects.0@),
            decreases self.edges@.len() - i,
        {
            let e = &self.edges[i];
            let ghost so_far = defects.0@;
            if !self.nodes.contains(e.from.as_str()) {
                defects.push(BuildError::MissingNode { from: e.from.clone(), to: e.to.clone() });
            }
            if !self.nodes.contains(e.to.as_str()) {
                defects.push(BuildError::MissingNode { from: e.from.clone(), to: e.to.clone() });
            }
            if e.fallback && text::same_text(e.from.as_str(), e.to.as_str()) {
                defects.push(
                    BuildError::InvalidFallback {
                        node: e.from.clone(),
                        reason: "fallback edge points to its own node".to_owned(),
                    },
                );
            }
            i += 1;
            proof {
                let mine = defects.0@.skip(so_far.len() as int);
                assert(self.edges@.take(i as int).drop_last() =~= self.edges@.take(i - 1));
                assert(self.edges@.take(i as int).last() == *e);
                assert(defects.0@.len() == so_far.len() + error_count(self.nodes@, *e));
                assert(defects.0@.take(so_far.len() as int) =~= so_far);
                assert(edge_errors(self.nodes@, *e, mine));
            }
        }
        proof {
            assert(self.edges@.take(self.edges@.len() as int) =~= self.edges@);
            lemma_no_errors(self.nodes@, self.edges@, defects.0@);
        }
        let ghost found = defects.0@;
        errors.0.append(&mut defects.0);
        proof {
            let n = this.repeated@.len() as int;
            assert(errors.0@.take(n) =~= doubles);
            assert(errors.0@.skip(n) =~= found);
        }
        if !errors.is_empty() {
            return Err(errors);
        }
        let structural = hash::compute_structural_hash(&self.nodes, &self.edges);
        let canonical_hash: u64 = match self.canonical_hash {
            Some(h) => h,
            None => structural,
        };
        let graph = Graph {
            name: self.name,
            nodes: self.nodes,
            edges: self.edges,
            start,
            end,
            canonical_hash,
        };
        match graph.validate() {
            Err(e) => {
                let mut found = BuildErrors::new();
                found.push(
                    BuildError::InvalidEdgeDefinition {
                        from: "graph".to_owned(),
                        to: "graph".to_owned(),
                        reason: e.to_string(),
                    },
                );
                Err(found)
            },
            Ok(()) => Ok(graph),
        }
    }
}

impl<C, X, M> GraphBuilder<NodeKind<C, X, M>, C> {
    /// Adds a graph within the graph under a name.
    pub fn subgraph(&mut self, name: &str, inner: CompiledSubgraph<X>) -> (builder: &mut Self)
        ensures
            builder.nodes@ == node_table::with_node(
                old(self).nodes@,
                name@,
                NodeKind::Subgraph(inner),
            ),
            text::texts(builder.repeated@) == repeats(
                text::texts(old(self).repeated@),
                old(self).nodes@,
                name@,
            ),
            *builder == (GraphBuilder {
                nodes: builder.nodes,
                repeated: builder.repeated,
                ..*old(self)
            }),
            *final(self) == *final(builder),
    {
        self.put_node(name, NodeKind::Subgraph(inner));
        self
    }

    /// Builds the graph and runs the passes over it, none of which changes it.
    pub fn compile(self) -> (r: Result<Graph<NodeKind<C, X, M>, C>, BuildErrors>)
        ensures
            self.builds(r),
            r is Ok <==> self.start is Some && self.end is Some && node_table::has_node(
                self.nodes@,
                self.start->0@,
            ) && node_table::has_node(self.nodes@, self.end->0@) && self.repeated@.len() == 0
                && edges_sound(self.nodes@, self.edges@),
    {
        let r = self.build();
        match r {
            Ok(built) => {
                let mut graph = built;
                let mut ctx = CompilerContext::new();
                let pass = InlinePass::new();
                proof {
                    graph.nodes@.lemma_filter_len(inline_pass::is_inner::<C, X, M>());
                }
                // A table holds no more nodes than a `usize` counts.
                let _total = graph.nodes.len();
                pass.run(&mut graph, &mut ctx);
                Ok(graph)
            },
            Err(errors) => Err(errors),
        }
    }
}

/// Every end of an edge that is no node is named in an error of its own, and so is every
/// fallback that leads back to its node; and every error is for such an edge.
pub proof fn law_every_defect_is_named<N, C>(
    nodes: Seq<(Seq<char>, N)>,
    edges: Seq<Edge<C>>,
    errors: Seq<BuildError>,
    i: int,
    k: int,
)
    requires
        names_defects(nodes, edges, errors),
    ensures
        0 <= i < edges.len() && (!node_table::node_names(nodes).contains(edges[i].from@)
            || !node_table::node_names(nodes).contains(edges[i].to@)) ==> exists|j: int|
            0 <= j < errors.len() && ((#[trigger] errors[j]) matches BuildError::MissingNode {
                from,
                to,
            } && from@ == edges[i].from@ && to@ == edges[i].to@),
        0 <= i < edges.len() && edges[i].fallback && edges[i].from@ == edges[i].to@ ==> exists|j: int|
            0 <= j < errors.len() && ((#[trigger] errors[j]) matches BuildError::InvalidFallback {
                node,
                reason,
            } && node@ == edges[i].from@ && reason@ == "fallback edge points to its own node"@),
        0 <= k < errors.len() ==> exists|j: int|
            0 <= j < edges.len() && is_for(nodes, #[trigger] edges[j], errors[k]),
        errors.len() == 0 <==> edges_sound(nodes, edges),
    decreases edges.len(),
{
    lemma_no_errors(nodes, edges, errors);
    if edges.len() > 0 {
        let front = edges.drop_last();
        let last = edges.last();
        let split = errors.len() - error_count(nodes, last);
        let early = errors.take(split);
        let late = errors.skip(split);
        assert(edges[edges.len() - 1] == last);
        lemma_named(nodes, last.from@);
        lemma_named(nodes, last.to@);
        law_every_defect_is_named(nodes, front, early, i, k);
        if 0 <= i < front.len() {
            assert(front[i] == edges[i]);
            if !node_table::node_names(nodes).contains(edges[i].from@)
                || !node_table::node_names(nodes).contains(edges[i].to@) {
                let j = choose|j: int|
                    0 <= j < early.len() && ((#[trigger] early[j]) matches BuildError::MissingNode {
                        from,
                        to,
                    } && from@ == front[i].from@ && to@ == front[i].to@);
                assert(errors[j] == early[j]);
            }
            if edges[i].fallback && edges[i].from@ == edges[i].to@ {
                let j = choose|j: int|
                    0 <= j < early.len() && ((#[trigger] early[j]) matches BuildError::InvalidFallback {
                        node,
                        reason,
                    } && node@ == front[i].from@ && reason@
                        == "fallback edge points to its own node"@);
                assert(errors[j] == early[j]);
            }
        } else if i == front.len() {
            if missing_ends(nodes, last) > 0 {
                assert(late[0] == errors[split]);
            }
            if falls_on_itself(last) {
                assert(late.last() == errors[errors.len() - 1]);
            }
        }
        if 0 <= k < errors.len() {
            if k < split {
                assert(early[k] == errors[k]);
                let j = choose|j: int|
                    0 <= j < front.len() && is_for(nodes, #[trigger] front[j], early[k]);
                assert(edges[j] == front[j]);
            } else {
                assert(late[k - split] == errors[k]);
                if k - split >= missing_ends(nodes, last) {
                    assert(late.last() == errors[k]);
                }
                assert(is_for(nodes, edges[edges.len() - 1], errors[k]));
            }
        }
    }
}

/// The error is one that the edge gives cause for.
pub open spec fn is_for<N, C>(nodes: Seq<(Seq<char>, N)>, e: Edge<C>, error: BuildError) -> bool {
    match error {
        BuildError::MissingNode { from, to } => from@ == e.from@ && to@ == e.to@ && !(
        node_table::node_names(nodes).contains(e.from@) && node_table::node_names(nodes).contains(
            e.to@,
        )),
        BuildError::InvalidFallback { node, .. } => node@ == e.from@ && e.fallback && e.from@
            == e.to@,
        _ => false,
    }
}

proof fn lemma_named<N>(nodes: Seq<(Seq<char>, N)>, name: Seq<char>)
    ensures
        node_table::node_names(nodes).contains(name) <==> node_table::has_node(nodes, name),
{
    let names = node_table::node_names(nodes);
    if names.contains(name) {
        assert(nodes[names.index_of(name)].0 == name);
    }
    if node_table::has_node(nodes, name) {
        let i = choose|i: int| 0 <= i < nodes.len() && (#[trigger] nodes[i]).0 == name;
        assert(names[i] == name);
    }
}

/// A graph that is built has what was put into the builder, and nothing else; and it is
/// built only if its start and end were set, no name was added twice, and the start, the
/// end and both ends of every edge are among the names. Where the start or the end was not
/// set, that is the one error, the start first; and a repeated name is named before all
/// else that is wrong.
pub proof fn law_builds_what_was_put_in<N, C>(
    b: GraphBuilder<N, C>,
    r: Result<Graph<N, C>, BuildErrors>,
    i: int,
)
    requires
        b.builds(r),
    ensures
        r matches Ok(g) ==> {
            let names = node_table::node_names(b.nodes@);
            &&& g.name == b.name && g.nodes == b.nodes && g.edges == b.edges
            &&& b.start == Some(g.start) && b.end == Some(g.end)
            &&& names.contains(g.start@) && names.contains(g.end@)
            &&& b.repeated@.len() == 0
            &&& 0 <= i < b.edges@.len() ==> names.contains(b.edges@[i].from@) && names.contains(
                b.edges@[i].to@,
            ) && !(b.edges@[i].fallback && b.edges@[i].from@ == b.edges@[i].to@)
            &&& b.canonical_hash matches Some(h) ==> g.canonical_hash == h
            &&& b.canonical_hash is None ==> g.canonical_hash == hash::structural_hash(
                names,
                hash::edge_texts(b.edges@),
            )
        },
        r matches Err(errors) ==> {
            &&& errors.0@.len() > 0
            &&& b.start is None ==> errors.0@.len() == 1 && errors.0@[0] is MissingEntryPoint
            &&& b.start is Some && b.end is None ==> errors.0@.len() == 1
                && errors.0@[0] is MissingExitPoint
            &&& b.start is Some && b.end is Some && 0 <= i < b.repeated@.len() ==> (
            errors.0@[i] matches BuildError::DuplicateNode { id } && id@ == b.repeated@[i]@)
        },
{
    match r {
        Ok(g) => {
            lemma_named(b.nodes@, g.start@);
            lemma_named(b.nodes@, g.end@);
            if 0 <= i < b.edges@.len() {
                lemma_named(b.nodes@, b.edges@[i].from@);
                lemma_named(b.nodes@, b.edges@[i].to@);
                assert(!falls_on_itself(b.edges@[i]));
            }
        },
        Err(errors) => {
            if b.start is Some && b.end is Some {
                let n = b.repeated@.len() as int;
                if n > 0 || !edges_sound(b.nodes@, b.edges@) {
                    lemma_no_errors(b.nodes@, b.edges@, errors.0@.skip(n));
                    if 0 <= i < n {
                        assert(errors.0@.take(n)[i] == errors.0@[i]);
                        assert(text::texts(b.repeated@)[i] == b.repeated@[i]@);
                    }
                }
            }
        },
    }
}

/// A name is repeated exactly if there was a node with it before, and earlier repetitions
/// stay.
pub proof fn law_repetitions_are_noted<N>(
    before: Seq<Seq<char>>,
    nodes: Seq<(Seq<char>, N)>,
    name: Seq<char>,
)
    ensures
        before.is_prefix_of(repeats(before, nodes, name)),
        node_table::node_names(nodes).contains(name) ==> repeats(before, nodes, name).len()
            == before.len() + 1 && repeats(before, nodes, name).last() == name,
        !node_table::node_names(nodes).contains(name) ==> repeats(before, nodes, name) == before,
{
    lemma_named(nodes, name);
}

/// A new edge has the ends and the condition that were given, no limit on visits, and is a
/// fallback only if it was added as one: one with a condition is conditional, one without
/// is normal.
pub proof fn law_new_edges<C>(
    e: Edge<C>,
    from: Seq<char>,
    to: Seq<char>,
    condition: Option<C>,
    fallback: bool,
)
    requires
        plain_edge(e, from, to, condition, fallback),
    ensures
        e.from@ == from,
        e.to@ == to,
        e.condition == condition,
        e.fallback == fallback,
        !e.limited(),
        e.conditional() <==> condition is Some && !fallback,
        e.normal() <==> condition is None && !fallback,
{
}

} // verus!
