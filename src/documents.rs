//! The list of ingested documents, each with its chunks.

use vstd::prelude::*;
use crate::graph::{
    RecordId,
    RecordIdView,
    Node,
    NodeData,
    NodeDataView,
    NodeView,
    EdgeKind,
    EdgeView,
    GraphView,
    GraphStore,
    has_node,
    index_of,
    wf,
    clone_node,
};

verus! {

/// `s` with `x` placed after every item whose key is at most its own, and
/// before the items after them: one step of a stable insertion sort.
pub open spec fn insert_by_key<T>(s: Seq<T>, x: T, key: spec_fn(T) -> int) -> Seq<T>
    decreases s.len(),
{
    if s.len() == 0 || key(s.last()) <= key(x) {
        s.push(x)
    } else {
        insert_by_key(s.drop_last(), x, key).push(s.last())
    }
}

/// `s` sorted by ascending key; items with equal keys keep their order.
pub open spec fn sort_by_key<T>(s: Seq<T>, key: spec_fn(T) -> int) -> Seq<T>
    decreases s.len(),
{
    if s.len() == 0 {
        s
    } else {
        insert_by_key(sort_by_key(s.drop_last(), key), s.last(), key)
    }
}

/// The keys never decrease along `s`.
pub open spec fn sorted_by_key<T>(s: Seq<T>, key: spec_fn(T) -> int) -> bool {
    forall|i: int, j: int| 0 <= i < j < s.len() ==> key(s[i]) <= key(s[j])
}

/// Inserting at the place `insert_by_key` finds is inserting at position `p`
/// when the items before `p` have keys at most `key(x)` and those from `p` on
/// have greater keys.
proof fn lemma_insert_at<T>(s: Seq<T>, x: T, key: spec_fn(T) -> int, p: int)
    requires
        0 <= p <= s.len(),
        p == 0 || key(s[p - 1]) <= key(x),
        forall|k: int| p <= k < s.len() ==> key(#[trigger] s[k]) > key(x),
    ensures
        insert_by_key(s, x, key) == s.insert(p, x),
    decreases s.len(),
{
    if p == s.len() {
        assert(s.push(x) =~= s.insert(p, x));
    } else {
        assert(key(s.last()) > key(x));
        let d = s.drop_last();
        assert forall|k: int| p <= k < d.len() implies key(#[trigger] d[k]) > key(x) by {
            assert(d[k] == s[k]);
        }
        if p > 0 {
            assert(d[p - 1] == s[p - 1]);
        }
        lemma_insert_at(d, x, key, p);
        assert(d.insert(p, x).push(s.last()) =~= s.insert(p, x));
    }
}

/// Inserting keeps a sorted sequence sorted and adds exactly the one item.
proof fn lemma_insert_sorted<T>(s: Seq<T>, x: T, key: spec_fn(T) -> int)
    requires
        sorted_by_key(s, key),
    ensures
        sorted_by_key(insert_by_key(s, x, key), key),
        insert_by_key(s, x, key).to_multiset() == s.to_multiset().insert(x),
    decreases s.len(),
{
    broadcast use vstd::seq_lib::group_to_multiset_ensures;

    let r = insert_by_key(s, x, key);
    if s.len() == 0 || key(s.last()) <= key(x) {
        assert(sorted_by_key(r, key)) by {
            assert forall|i: int, j: int| 0 <= i < j < r.len() implies key(r[i]) <= key(r[j]) by {
                if j == s.len() {
                    assert(key(s[i]) <= key(s.last()));
                }
            }
        }
    } else {
        let d = s.drop_last();
        assert(sorted_by_key(d, key));
        lemma_insert_sorted(d, x, key);
        let m = insert_by_key(d, x, key);
        assert(m.to_multiset() == d.to_multiset().insert(x));
        assert(s == d.push(s.last()));
        assert(m.to_multiset().contains(x));
        assert forall|i: int| 0 <= i < m.len() implies key(#[trigger] m[i]) <= key(s.last()) by {
            assert(m.to_multiset().count(m[i]) > 0) by {
                assert(m.contains(m[i]));
            }
            if m[i] == x {
            } else {
                assert(d.to_multiset().count(m[i]) > 0);
                assert(d.contains(m[i]));
                let k = choose|k: int| 0 <= k < d.len() && d[k] == m[i];
                assert(key(s[k]) <= key(s[s.len() - 1]));
            }
        }
        assert(sorted_by_key(r, key)) by {
            assert forall|i: int, j: int| 0 <= i < j < r.len() implies key(r[i]) <= key(r[j]) by {
                if j == m.len() {
                    assert(r[i] == m[i]);
                } else {
                    assert(r[i] == m[i]);
                    assert(r[j] == m[j]);
                }
            }
        }
        assert(r.to_multiset() =~= s.to_multiset().insert(x));
    }
}

/// Sorting yields a sorted permutation.
pub proof fn lemma_sort_by_key<T>(s: Seq<T>, key: spec_fn(T) -> int)
    ensures
        sorted_by_key(sort_by_key(s, key), key),
        sort_by_key(s, key).to_multiset() == s.to_multiset(),
    decreases s.len(),
{
    broadcast use vstd::seq_lib::group_to_multiset_ensures;

    if s.len() > 0 {
        lemma_sort_by_key(s.drop_last(), key);
        lemma_insert_sorted(sort_by_key(s.drop_last(), key), s.last(), key);
        assert(s == s.drop_last().push(s.last()));
    }
}

/// A document node with the chunk nodes it contains.
#[derive(Debug)]
pub struct DocumentWithChunks {
    pub document: Node,
    pub chunks: Vec<Node>,
}

pub struct DocumentWithChunksView {
    pub document: NodeView,
    pub chunks: Seq<NodeView>,
}

impl View for DocumentWithChunks {
    type V = DocumentWithChunksView;

    open spec fn view(&self) -> DocumentWithChunksView {
        DocumentWithChunksView {
            document: self.document@,
            chunks: self.chunks@.map_values(|n: Node| n@),
        }
    }
}

/// Sort key of a chunk: its page index, ascending.
pub open spec fn chunk_order(n: NodeView) -> int {
    match n.data {
        NodeDataView::Chunk { page_index, .. } => page_index as int,
        _ => 0,
    }
}

/// Sort key of a listed document: its creation time, newest first.
pub open spec fn document_order(d: DocumentWithChunksView) -> int {
    match d.document.data {
        NodeDataView::Document { created_at, .. } => -(created_at as int),
        _ => 0,
    }
}

/// The chunk at the end of a `Contains` edge from `doc`, if the edge is one.
pub open spec fn contained(g: GraphView, doc: RecordIdView, e: EdgeView) -> Option<NodeView> {
    if e.kind == EdgeKind::Contains && e.from == doc && has_node(g, e.to) {
        match g.nodes[index_of(g, e.to)].data {
            NodeDataView::Chunk { .. } => Some(g.nodes[index_of(g, e.to)]),
            _ => None,
        }
    } else {
        None
    }
}

/// The chunks that `doc` contains, in the order they were linked.
pub open spec fn chunks_of(g: GraphView, doc: RecordIdView, edges: Seq<EdgeView>) -> Seq<NodeView>
    decreases edges.len(),
{
    if edges.len() == 0 {
        Seq::empty()
    } else {
        chunks_of(g, doc, edges.drop_last()) + match contained(g, doc, edges.last()) {
            Some(c) => seq![c],
            None => Seq::empty(),
        }
    }
}

/// The listing entry of a document: the node and its chunks by page index.
pub open spec fn document_entry(g: GraphView, n: NodeView) -> DocumentWithChunksView {
    DocumentWithChunksView {
        document: n,
        chunks: sort_by_key(chunks_of(g, n.id, g.edges), |c: NodeView| chunk_order(c)),
    }
}

/// The entries of the documents among `nodes`, in store order.
pub open spec fn document_entries(g: GraphView, nodes: Seq<NodeView>) -> Seq<DocumentWithChunksView>
    decreases nodes.len(),
{
    if nodes.len() == 0 {
        Seq::empty()
    } else {
        document_entries(g, nodes.drop_last()) + match nodes.last().data {
            NodeDataView::Document { .. } => seq![document_entry(g, nodes.last())],
            _ => Seq::empty(),
        }
    }
}

/// The listing: every stored document, newest first (documents created at
/// the same time in store order), each with its chunks by ascending page index.
pub open spec fn listing(g: GraphView) -> Seq<DocumentWithChunksView> {
    sort_by_key(document_entries(g, g.nodes), |d: DocumentWithChunksView| document_order(d))
}

fn chunk_index(n: &Node) -> (r: usize)
    ensures
        r as int == chunk_order(n@),
{
    match &n.data {
        NodeData::Chunk(c) => c.page_index,
        _ => 0,
    }
}

fn created_time(d: &DocumentWithChunks) -> (r: u64)
    ensures
        -(r as int) == document_order(d@),
{
    match &d.document.data {
        NodeData::Document(x) => x.created_at,
        _ => 0,
    }
}

/// The chunks `doc` contains, by ascending page index (ties in link order).
fn chunks_of_document(store: &GraphStore, doc: &RecordId) -> (r: Vec<Node>)
    requires
        wf(store@),
    ensures
        r@.map_values(|n: Node| n@) == sort_by_key(
            chunks_of(store@, doc@, store@.edges),
            |c: NodeView| chunk_order(c),
        ),
{
    let ghost es = store@.edges;
    let ghost key = |c: NodeView| chunk_order(c);
    let mut out: Vec<Node> = Vec::new();
    let m = store.edge_count();
    let mut j: usize = 0;
    assert(es.take(0) =~= Seq::<EdgeView>::empty());
    assert(out@.map_values(|n: Node| n@) =~= Seq::<NodeView>::empty());
    while j < m
        invariant
            wf(store@),
            es == store@.edges,
            m == es.len(),
            j <= m,
            key == (|c: NodeView| chunk_order(c)),
            out@.map_values(|n: Node| n@) == sort_by_key(chunks_of(store@, doc@, es.take(j as int)), key),
        decreases m - j,
    {
        let e = store.edge(j);
        assert(es.take(j + 1).drop_last() =~= es.take(j as int));
        assert(es.take(j + 1).last() == es[j as int]);
        let ghost prev = chunks_of(store@, doc@, es.take(j as int));
        let ghost before = out@.map_values(|n: Node| n@);
        let mut found: Option<Node> = None;
        if e.kind == EdgeKind::Contains && e.from.same(doc) {
            match store.find(&e.to) {
                Some(i) => {
                    let node = store.node(i);
                    let is_chunk = match &node.data {
                        NodeData::Chunk(_) => true,
                        _ => false,
                    };
                    if is_chunk {
                        found = Some(clone_node(node));
                    }
                },
                None => {},
            }
        }
        match found {
            Some(c) => {
                let ghost cv = c@;
                assert(chunks_of(store@, doc@, es.take(j + 1)) =~= prev.push(cv));
                assert(prev.push(cv).drop_last() =~= prev);
                let k = chunk_index(&c);
                let mut p: usize = out.len();
                while p > 0 && chunk_index(&out[p - 1]) > k
                    invariant
                        p <= out@.len(),
                        out@.map_values(|n: Node| n@) == before,
                        k as int == key(cv),
                        key == (|c: NodeView| chunk_order(c)),
                        forall|q: int| p <= q < before.len() ==> key(#[trigger] before[q]) > key(cv),
                    decreases p,
                {
                    assert(before[p - 1] == out@[p - 1]@);
                    p = p - 1;
                }
                if p > 0 {
                    assert(before[p - 1] == out@[p - 1]@);
                }
                proof {
                    lemma_insert_at(before, cv, key, p as int);
                }
                out.insert(p, c);
                assert(out@.map_values(|n: Node| n@) =~= before.insert(p as int, cv));
            },
            None => {
                assert(chunks_of(store@, doc@, es.take(j + 1)) =~= prev);
            },
        }
        j = j + 1;
    }
    assert(es.take(m as int) =~= es);
    out
}

/// The stored documents, newest first (by creation time; documents created at
/// the same time in store order), each with the chunks it contains by
/// ascending page index (chunks with the same index in link order). Every
/// stored document appears exactly once, and the store is not changed.
pub fn get_documents(store: &GraphStore) -> (r: Vec<DocumentWithChunks>)
    requires
        wf(store@),
    ensures
        r@.map_values(|d: DocumentWithChunks| d@) == listing(store@),
        sorted_by_key(listing(store@), |d: DocumentWithChunksView| document_order(d)),
        listing(store@).to_multiset() == document_entries(store@, store@.nodes).to_multiset(),
        forall|i: int|
            0 <= i < listing(store@).len() ==> sorted_by_key(
                #[trigger] listing(store@)[i].chunks,
                |c: NodeView| chunk_order(c),
            ),
{
    let ghost ns = store@.nodes;
    let ghost key = |d: DocumentWithChunksView| document_order(d);
    let n = store.node_count();
    let mut out: Vec<DocumentWithChunks> = Vec::new();
    let mut i: usize = 0;
    assert(ns.take(0) =~= Seq::<NodeView>::empty());
    assert(out@.map_values(|d: DocumentWithChunks| d@) =~= Seq::<DocumentWithChunksView>::empty());
    while i < n
        invariant
            wf(store@),
            ns == store@.nodes,
            n == ns.len(),
            i <= n,
            key == (|d: DocumentWithChunksView| document_order(d)),
            out@.map_values(|d: DocumentWithChunks| d@) == sort_by_key(
                document_entries(store@, ns.take(i as int)),
                key,
            ),
        decreases n - i,
    {
        let node = store.node(i);
        assert(ns.take(i + 1).drop_last() =~= ns.take(i as int));
        assert(ns.take(i + 1).last() == ns[i as int]);
        let ghost prev = document_entries(store@, ns.take(i as int));
        let ghost before = out@.map_values(|d: DocumentWithChunks| d@);
        let is_document = match &node.data {
            NodeData::Document(_) => true,
            _ => false,
        };
        if is_document {
            let entry = DocumentWithChunks {
                document: clone_node(node),
                chunks: chunks_of_document(store, &node.id),
            };
            let ghost ev = entry@;
            assert(ev == document_entry(store@, ns[i as int]));
            assert(document_entries(store@, ns.take(i + 1)) =~= prev.push(ev));
            assert(prev.push(ev).drop_last() =~= prev);
            let t = created_time(&entry);
            let mut p: usize = out.len();
            while p > 0 && created_time(&out[p - 1]) < t
                invariant
                    p <= out@.len(),
                    out@.map_values(|d: DocumentWithChunks| d@) == before,
                    -(t as int) == key(ev),
                    key == (|d: DocumentWithChunksView| document_order(d)),
                    forall|q: int| p <= q < before.len() ==> key(#[trigger] before[q]) > key(ev),
                decreases p,
            {
                assert(before[p - 1] == out@[p - 1]@);
                p = p - 1;
            }
            if p > 0 {
                assert(before[p - 1] == out@[p - 1]@);
            }
            proof {
                lemma_insert_at(before, ev, key, p as int);
            }
            out.insert(p, entry);
            assert(out@.map_values(|d: DocumentWithChunks| d@) =~= before.insert(p as int, ev));
        } else {
            assert(document_entries(store@, ns.take(i + 1)) =~= prev);
        }
        i = i + 1;
    }
    assert(ns.take(n as int) =~= ns);
    proof {
        lemma_sort_by_key(document_entries(store@, ns), key);
        assert forall|k: int| 0 <= k < listing(store@).len() implies sorted_by_key(
            #[trigger] listing(store@)[k].chunks,
            |c: NodeView| chunk_order(c),
        ) by {
            lemma_listed_chunks_sorted(store@, ns, listing(store@)[k]);
        }
    }
    out
}

/// Every listed document's chunks are in ascending page order.
proof fn lemma_listed_chunks_sorted(g: GraphView, nodes: Seq<NodeView>, d: DocumentWithChunksView)
    requires
        sort_by_key(document_entries(g, nodes), |x: DocumentWithChunksView| document_order(x)).contains(d),
    ensures
        sorted_by_key(d.chunks, |c: NodeView| chunk_order(c)),
{
    broadcast use vstd::seq_lib::group_to_multiset_ensures;

    let key = |x: DocumentWithChunksView| document_order(x);
    let es = document_entries(g, nodes);
    lemma_sort_by_key(es, key);
    assert(sort_by_key(es, key).to_multiset().count(d) > 0);
    assert(es.contains(d));
    lemma_entries_are_entries(g, nodes, d);
    lemma_sort_by_key(chunks_of(g, d.document.id, g.edges), |c: NodeView| chunk_order(c));
}

proof fn lemma_entries_are_entries(g: GraphView, nodes: Seq<NodeView>, d: DocumentWithChunksView)
    requires
        document_entries(g, nodes).contains(d),
    ensures
        d == document_entry(g, d.document),
    decreases nodes.len(),
{
    if nodes.len() > 0 {
        let prev = document_entries(g, nodes.drop_last());
        let k = choose|k: int| 0 <= k < document_entries(g, nodes).len() && document_entries(g, nodes)[k] == d;
        if k < prev.len() {
            assert(document_entries(g, nodes)[k] == prev[k]);
            lemma_entries_are_entries(g, nodes.drop_last(), d);
        }
    }
}

} // verus!
