//! The fingerprint of a graph's structure.

use vstd::prelude::*;
use vstd::utf8::encode_utf8;

use crate::graph::graph_core::Edge;
use crate::graph::node_table;
use crate::graph::node_table::NodeTable;
use crate::text;

verus! {

/// The 64-bit FNV-1a hash of bytes.
pub open spec fn fnv(bytes: Seq<u8>) -> u64
    decreases bytes.len(),
{
    if bytes.len() == 0 {
        0xcbf29ce484222325u64
    } else {
        (((fnv(bytes.drop_last()) ^ (bytes.last() as u64)) * 0x100000001b3u64)
            % 0x1_0000_0000_0000_0000) as u64
    }
}

/// The 64-bit FNV-1a hash of a text's UTF-8 bytes.
pub fn fnv_hash(s: &str) -> (h: u64)
    ensures
        h == fnv(encode_utf8(s@)),
{
    let bytes = s.as_bytes();
    let mut hash: u64 = 0xcbf29ce484222325;
    let mut i: usize = 0;
    assert(bytes@.take(0) =~= Seq::empty());
    while i < bytes.len()
        invariant
            i <= bytes.len(),
            hash == fnv(bytes@.take(i as int)),
        decreases bytes.len() - i,
    {
        hash = (hash ^ (bytes[i] as u64)).wrapping_mul(0x100000001b3u64);
        i += 1;
        assert(bytes@.take(i as int).drop_last() =~= bytes@.take(i - 1));
    }
    assert(bytes@.take(bytes.len() as int) =~= bytes@);
    hash
}

/// An edge in the text that is hashed: its ends, a mark for a condition, a mark
/// for a fallback.
pub open spec fn edge_text<C>(e: Edge<C>) -> Seq<char> {
    e.from@ + "->"@ + e.to@ + (if e.condition is Some {
        "\"?\""@
    } else {
        "\"\""@
    }) + (if e.fallback {
        "!"@
    } else {
        ""@
    })
}

/// The texts of edges, in order.
pub open spec fn edge_texts<C>(edges: Seq<Edge<C>>) -> Seq<Seq<char>> {
    edges.map_values(|e: Edge<C>| edge_text(e))
}

/// The fingerprint of a structure: the hash of the sorted names and the sorted
/// edge texts.
pub open spec fn structural_hash(names: Seq<Seq<char>>, edges: Seq<Seq<char>>) -> u64 {
    fnv(
        encode_utf8(
            text::joined(text::sorted_texts(names), ","@) + "|"@ + text::joined(
                text::sorted_texts(edges),
                ","@,
            ),
        ),
    )
}

/// The same names and the same edges have the same fingerprint, in whatever order
/// they were added.
pub proof fn law_hash_ignores_order<N, C>(
    nodes1: Seq<(Seq<char>, N)>,
    edges1: Seq<Edge<C>>,
    nodes2: Seq<(Seq<char>, N)>,
    edges2: Seq<Edge<C>>,
)
    requires
        node_table::node_names(nodes1).to_multiset() == node_table::node_names(
            nodes2,
        ).to_multiset(),
        edge_texts(edges1).to_multiset() == edge_texts(edges2).to_multiset(),
    ensures
        structural_hash(node_table::node_names(nodes1), edge_texts(edges1)) == structural_hash(
            node_table::node_names(nodes2),
            edge_texts(edges2),
        ),
{
    text::lemma_sorted_same_contents(
        node_table::node_names(nodes1),
        node_table::node_names(nodes2),
    );
    text::lemma_sorted_same_contents(edge_texts(edges1), edge_texts(edges2));
}

fn write_edges<C>(edges: &Vec<Edge<C>>) -> (written: Vec<String>)
    ensures
        text::texts(written@) == edge_texts(edges@),
{
    let mut written: Vec<String> = Vec::new();
    let mut i: usize = 0;
    assert(text::texts(written@) =~= edge_texts(edges@).take(0));
    while i < edges.len()
        invariant
            i <= edges.len(),
            text::texts(written@) == edge_texts(edges@).take(i as int),
        decreases edges.len() - i,
    {
        let e = &edges[i];
        let mut s = e.from.clone();
        s.append("->");
        s.append(e.to.as_str());
        s.append(if e.condition.is_some() {
            "\"?\""
        } else {
            "\"\""
        });
        s.append(if e.fallback {
            "!"
        } else {
            ""
        });
        proof {
            assert(s@ == edge_text(*e));
            text::lemma_texts_push(written@, s);
            assert(edge_texts(edges@).take(i + 1) =~= edge_texts(edges@).take(i as int).push(
                edge_text(edges@[i as int]),
            ));
        }
        written.push(s);
        i += 1;
    }
    assert(edge_texts(edges@).take(edges.len() as int) =~= edge_texts(edges@));
    written
}

/// The fingerprint of nodes and edges.
pub fn compute_structural_hash<N, C>(nodes: &NodeTable<N>, edges: &Vec<Edge<C>>) -> (h: u64)
    ensures
        h == structural_hash(node_table::node_names(nodes@), edge_texts(edges@)),
{
    let names = text::sort_texts(nodes.names());
    let written = text::sort_texts(write_edges(edges));
    let mut s = text::join(&names, ",");
    s.append("|");
    s.append(text::join(&written, ",").as_str());
    fnv_hash(s.as_str())
}

/// The hash goes byte by byte: each byte is mixed into what those before it gave, and the
/// result is multiplied by the prime.
pub proof fn law_hash_goes_byte_by_byte(bytes: Seq<u8>, byte: u8)
    ensures
        fnv(Seq::empty()) == 14695981039346656037u64,
        fnv(bytes.push(byte)) == ((fnv(bytes) ^ (byte as u64)) as int * 1099511628211)
            % 18446744073709551616,
{
    assert(bytes.push(byte).drop_last() =~= bytes);
}

/// The text of an edge tells its ends, whether it has a condition and whether it is a
/// fallback: between the same ends two edges have the same text only if they agree in both.
pub proof fn law_edge_texts_tell_edges_apart<C>(a: Edge<C>, b: Edge<C>)
    requires
        a.from@ == b.from@,
        a.to@ == b.to@,
    ensures
        edge_text(a) == edge_text(b) <==> (a.condition is Some <==> b.condition is Some)
            && a.fallback == b.fallback,
        (a.from@ + "->"@ + a.to@).is_prefix_of(edge_text(a)),
{
    reveal_strlit("\"?\"");
    reveal_strlit("\"\"");
    reveal_strlit("!");
    reveal_strlit("");
    let front = a.from@ + "->"@ + a.to@;
    let n = front.len() as int;
    assert("\"?\""@.len() == 3 && "\"\""@.len() == 2 && "!"@.len() == 1 && ""@.len() == 0);
    assert("\"?\""@[1] == '?' && "\"\""@[1] == '"');
    assert(edge_text(a).len() >= n + 2 && edge_text(b).len() >= n + 2);
    assert(edge_text(a)[n + 1] == if a.condition is Some {
        '?'
    } else {
        '"'
    });
    assert(edge_text(b)[n + 1] == if b.condition is Some {
        '?'
    } else {
        '"'
    });
    assert(edge_text(a).len() == n + (if a.condition is Some {
        3int
    } else {
        2int
    }) + (if a.fallback {
        1int
    } else {
        0int
    }));
    assert(edge_text(b).len() == n + (if b.condition is Some {
        3int
    } else {
        2int
    }) + (if b.fallback {
        1int
    } else {
        0int
    }));
}

/// The texts of edges are those of each, in order: the two ends, a mark for a condition and
/// a mark for a fallback.
pub proof fn law_edge_texts<C>(edges: Seq<Edge<C>>, i: int)
    requires
        0 <= i < edges.len(),
    ensures
        edge_texts(edges).len() == edges.len(),
        edges[i].condition is None && !edges[i].fallback ==> edge_texts(edges)[i] == edges[i].from@
            + "->"@ + edges[i].to@ + "\"\""@,
        edges[i].condition is Some && !edges[i].fallback ==> edge_texts(edges)[i] == edges[i].from@
            + "->"@ + edges[i].to@ + "\"?\""@,
        edges[i].condition is None && edges[i].fallback ==> edge_texts(edges)[i] == edges[i].from@
            + "->"@ + edges[i].to@ + "\"\"!"@,
        edges[i].condition is Some && edges[i].fallback ==> edge_texts(edges)[i] == edges[i].from@
            + "->"@ + edges[i].to@ + "\"?\"!"@,
{
    reveal_strlit("");
    reveal_strlit("!");
    reveal_strlit("\"\"");
    reveal_strlit("\"?\"");
    reveal_strlit("\"\"!");
    reveal_strlit("\"?\"!");
    let ends = edges[i].from@ + "->"@ + edges[i].to@;
    assert(ends + "\"\""@ + ""@ =~= ends + "\"\""@);
    assert(ends + "\"?\""@ + ""@ =~= ends + "\"?\""@);
    assert(ends + "\"\""@ + "!"@ =~= ends + "\"\"!"@);
    assert(ends + "\"?\""@ + "!"@ =~= ends + "\"?\"!"@);
}

/// Of names and edges that are in ascending order the fingerprint is the hash of the names
/// with commas between them, a bar, and the edges with commas between them. In any other
/// order the fingerprint is the same.
pub proof fn law_fingerprint_of_ordered_lists(
    names: Seq<Seq<char>>,
    edges: Seq<Seq<char>>,
    other_names: Seq<Seq<char>>,
    other_edges: Seq<Seq<char>>,
)
    requires
        forall|i: int, j: int|
            0 <= i < j < names.len() ==> text::text_leq(#[trigger] names[i], #[trigger] names[j]),
        forall|i: int, j: int|
            0 <= i < j < edges.len() ==> text::text_leq(#[trigger] edges[i], #[trigger] edges[j]),
        other_names.to_multiset() == names.to_multiset(),
        other_edges.to_multiset() == edges.to_multiset(),
    ensures
        structural_hash(other_names, other_edges) == fnv(
            encode_utf8(text::joined(names, ","@) + "|"@ + text::joined(edges, ","@)),
        ),
{
    text::lemma_sorted_already(names);
    text::lemma_sorted_already(edges);
    text::lemma_sorted_same_contents(other_names, names);
    text::lemma_sorted_same_contents(other_edges, edges);
}

} // verus!
