//! The graph store the pipeline writes to: nodes keyed by `(table, key)`
//! record ids, and directed typed edges between them.

use vstd::prelude::*;
use crate::models::string_views;

verus! {

/// Table of ingestion sessions.
pub const SESSION_TABLE: &'static str = "event";

/// Table of source documents.
pub const DOCUMENT_TABLE: &'static str = "document";

/// Table of chunks.
pub const CHUNK_TABLE: &'static str = "chunk";

/// Table of canonical entities.
pub const ENTITY_TABLE: &'static str = "entity";

/// A record id: the table a node lives in and its key there.
#[derive(Debug)]
pub struct RecordId {
    pub table: String,
    pub key: String,
}

pub struct RecordIdView {
    pub table: Seq<char>,
    pub key: Seq<char>,
}

impl View for RecordId {
    type V = RecordIdView;

    open spec fn view(&self) -> RecordIdView {
        RecordIdView { table: self.table@, key: self.key@ }
    }
}

impl RecordId {
    pub fn new(table: &str, key: &str) -> (r: Self)
        ensures
            r@ == (RecordIdView { table: table@, key: key@ }),
    {
        RecordId { table: String::from_str(table), key: String::from_str(key) }
    }

    /// A copy of this id.
    pub fn duplicate(&self) -> (r: Self)
        ensures
            r@ == self@,
    {
        RecordId { table: self.table.clone(), key: self.key.clone() }
    }

    pub fn same(&self, other: &RecordId) -> (r: bool)
        ensures
            r == (self@ == other@),
    {
        self.table == other.table && self.key == other.key
    }
}

/// What a chunk carries besides its text: the analysis of the unit, its page
/// number, and whether the graph stage has linked it.
#[derive(Debug)]
pub struct ChunkMeta {
    pub title: String,
    pub summary: String,
    pub tags: Vec<String>,
    pub keywords: Vec<String>,
    pub page_number: usize,
    pub processed: bool,
}

pub struct ChunkMetaView {
    pub title: Seq<char>,
    pub summary: Seq<char>,
    pub tags: Seq<Seq<char>>,
    pub keywords: Seq<Seq<char>>,
    pub page_number: nat,
    pub processed: bool,
}

impl View for ChunkMeta {
    type V = ChunkMetaView;

    open spec fn view(&self) -> ChunkMetaView {
        ChunkMetaView {
            title: self.title@,
            summary: self.summary@,
            tags: string_views(self.tags@),
            keywords: string_views(self.keywords@),
            page_number: self.page_number as nat,
            processed: self.processed,
        }
    }
}

/// An ingestion session; `created_at` is in milliseconds since the Unix epoch.
#[derive(Debug)]
pub struct EventNode {
    pub summary: String,
    pub created_at: u64,
}

/// A source document, with the title and summary of its analysis;
/// `created_at` is in milliseconds since the Unix epoch.
#[derive(Debug)]
pub struct DocumentNode {
    pub filename: String,
    pub created_at: u64,
    pub title: String,
    pub summary: String,
}

/// A unit of extracted text: its content, its position in the document, and
/// its metadata.
#[derive(Debug)]
pub struct ChunkNode {
    pub content: String,
    pub page_index: usize,
    pub metadata: ChunkMeta,
}

/// A canonical entity.
#[derive(Debug)]
pub struct EntityNode {
    pub name: String,
    pub category: String,
    pub description: String,
}

/// The content of a node, by kind.
#[derive(Debug)]
pub enum NodeData {
    Session(EventNode),
    Document(DocumentNode),
    Chunk(ChunkNode),
    Entity(EntityNode),
}

pub enum NodeDataView {
    Session { summary: Seq<char>, created_at: nat },
    Document {
        filename: Seq<char>,
        created_at: nat,
        title: Seq<char>,
        summary: Seq<char>,
    },
    Chunk { content: Seq<char>, page_index: nat, meta: ChunkMetaView },
    Entity { name: Seq<char>, category: Seq<char>, description: Seq<char> },
}

impl View for NodeData {
    type V = NodeDataView;

    open spec fn view(&self) -> NodeDataView {
        match self {
            NodeData::Session(n) => NodeDataView::Session {
                summary: n.summary@,
                created_at: n.created_at as nat,
            },
            NodeData::Document(d) => NodeDataView::Document {
                filename: d.filename@,
                created_at: d.created_at as nat,
                title: d.title@,
                summary: d.summary@,
            },
            NodeData::Chunk(c) => NodeDataView::Chunk {
                content: c.content@,
                page_index: c.page_index as nat,
                meta: c.metadata@,
            },
            NodeData::Entity(e) => NodeDataView::Entity {
                name: e.name@,
                category: e.category@,
                description: e.description@,
            },
        }
    }
}

/// A stored node.
#[derive(Debug)]
pub struct Node {
    pub id: RecordId,
    pub data: NodeData,
}

pub struct NodeView {
    pub id: RecordIdView,
    pub data: NodeDataView,
}

impl View for Node {
    type V = NodeView;

    open spec fn view(&self) -> NodeView {
        NodeView { id: self.id@, data: self.data@ }
    }
}

/// The kinds of edge: a session imported a document, a document contains a
/// chunk, a chunk mentions an entity, an entity is related to another.
#[derive(Debug, Clone, Copy, PartialEq, Eq, Structural)]
pub enum EdgeKind {
    Imported,
    Contains,
    Mentions,
    RelatedTo,
}

/// A directed edge; `relation` and `reason` are empty but on `RelatedTo`.
#[derive(Debug)]
pub struct Edge {
    pub kind: EdgeKind,
    pub from: RecordId,
    pub to: RecordId,
    pub relation: String,
    pub reason: String,
}

pub struct EdgeView {
    pub kind: EdgeKind,
    pub from: RecordIdView,
    pub to: RecordIdView,
    pub relation: Seq<char>,
    pub reason: Seq<char>,
}

impl View for Edge {
    type V = EdgeView;

    open spec fn view(&self) -> EdgeView {
        EdgeView {
            kind: self.kind,
            from: self.from@,
            to: self.to@,
            relation: self.relation@,
            reason: self.reason@,
        }
    }
}

/// Why a write was refused.
#[derive(Debug, PartialEq, Eq)]
pub enum StoreError {
    /// A node with this id is stored already.
    Duplicate { table: String, key: String },
}

/// The nodes, in the order they were first written, and the edges, in the
/// order they were written.
pub struct GraphView {
    pub nodes: Seq<NodeView>,
    pub edges: Seq<EdgeView>,
}

/// An in-memory graph store.
pub struct GraphStore {
    nodes: Vec<Node>,
    edges: Vec<Edge>,
}

impl View for GraphStore {
    type V = GraphView;

    closed spec fn view(&self) -> GraphView {
        GraphView {
            nodes: self.nodes@.map_values(|n: Node| n@),
            edges: self.edges@.map_values(|e: Edge| e@),
        }
    }
}

/// A node with this id is stored.
pub open spec fn has_node(g: GraphView, id: RecordIdView) -> bool {
    exists|i: int| 0 <= i < g.nodes.len() && (#[trigger] g.nodes[i]).id == id
}

/// The position of the node with this id.
pub open spec fn index_of(g: GraphView, id: RecordIdView) -> int {
    choose|i: int| 0 <= i < g.nodes.len() && (#[trigger] g.nodes[i]).id == id
}

/// No two nodes share an id.
pub open spec fn wf(g: GraphView) -> bool {
    forall|i: int, j: int|
        0 <= i < g.nodes.len() && 0 <= j < g.nodes.len() && i != j ==> (#[trigger] g.nodes[i]).id
            != (#[trigger] g.nodes[j]).id
}

/// `g` with node `n` added after the others.
pub open spec fn created(g: GraphView, n: NodeView) -> GraphView {
    GraphView { nodes: g.nodes.push(n), edges: g.edges }
}

/// `g` with node `n` in place of the one with its id, or added when there is none.
pub open spec fn upserted(g: GraphView, n: NodeView) -> GraphView {
    if has_node(g, n.id) {
        GraphView { nodes: g.nodes.update(index_of(g, n.id), n), edges: g.edges }
    } else {
        created(g, n)
    }
}

/// `g` with edge `e` added after the others.
pub open spec fn related(g: GraphView, e: EdgeView) -> GraphView {
    GraphView { nodes: g.nodes, edges: g.edges.push(e) }
}

/// A chunk node with its processed flag set; any other node as it is.
pub open spec fn with_processed(n: NodeView) -> NodeView {
    match n.data {
        NodeDataView::Chunk { content, page_index, meta } => NodeView {
            id: n.id,
            data: NodeDataView::Chunk {
                content,
                page_index,
                meta: ChunkMetaView { processed: true, ..meta },
            },
        },
        _ => n,
    }
}

/// `g` with the chunk of this id marked processed.
pub open spec fn marked_processed(g: GraphView, id: RecordIdView) -> GraphView {
    if has_node(g, id) {
        GraphView {
            nodes: g.nodes.update(index_of(g, id), with_processed(g.nodes[index_of(g, id)])),
            edges: g.edges,
        }
    } else {
        g
    }
}

/// An entity node with this display name and empty category and description.
pub open spec fn placeholder_entity(id: RecordIdView, name: Seq<char>) -> NodeView {
    NodeView {
        id,
        data: NodeDataView::Entity {
            name,
            category: Seq::empty(),
            description: Seq::empty(),
        },
    }
}

/// `g` with the entity of this id renamed, or a placeholder entity of that
/// name added when there is none; another kind of node under the id is kept.
pub open spec fn named_entity(g: GraphView, id: RecordIdView, name: Seq<char>) -> GraphView {
    if has_node(g, id) {
        match g.nodes[index_of(g, id)].data {
            NodeDataView::Entity { name: _, category, description } => GraphView {
                nodes: g.nodes.update(
                    index_of(g, id),
                    NodeView { id, data: NodeDataView::Entity { name, category, description } },
                ),
                edges: g.edges,
            },
            _ => g,
        }
    } else {
        created(g, placeholder_entity(id, name))
    }
}

/// Upserting keeps ids unique.
pub proof fn lemma_upserted_wf(g: GraphView, n: NodeView)
    requires
        wf(g),
    ensures
        wf(upserted(g, n)),
        has_node(upserted(g, n), n.id),
        index_of(upserted(g, n), n.id) == if has_node(g, n.id) {
            index_of(g, n.id)
        } else {
            g.nodes.len() as int
        },
        upserted(g, n).nodes[index_of(upserted(g, n), n.id)] == n,
{
    let h = upserted(g, n);
    let k = if has_node(g, n.id) {
        index_of(g, n.id)
    } else {
        g.nodes.len() as int
    };
    assert(h.nodes[k] == n);
    assert forall|i: int, j: int|
        0 <= i < h.nodes.len() && 0 <= j < h.nodes.len() && i != j implies (#[trigger] h.nodes[i]).id
        != (#[trigger] h.nodes[j]).id by {
        if i != k && j != k {
            assert(h.nodes[i] == g.nodes[i]);
            assert(h.nodes[j] == g.nodes[j]);
        } else if i == k {
            assert(h.nodes[j] == g.nodes[j]);
            if has_node(g, n.id) {
                assert(g.nodes[k].id == n.id);
            }
        } else {
            assert(h.nodes[i] == g.nodes[i]);
            if has_node(g, n.id) {
                assert(g.nodes[k].id == n.id);
            }
        }
    }
    assert(has_node(h, n.id));
    let c = index_of(h, n.id);
    if c != k {
        assert(h.nodes[c].id != h.nodes[k].id);
    }
}

/// Upserting under one id twice leaves exactly one node with that id,
/// holding the later content, and the same store as the later upsert alone.
pub proof fn lemma_upsert_twice(g: GraphView, id: RecordIdView, a: NodeDataView, b: NodeDataView)
    requires
        wf(g),
    ensures
        upserted(upserted(g, NodeView { id, data: a }), NodeView { id, data: b }) == upserted(
            g,
            NodeView { id, data: b },
        ),
        ({
            let h = upserted(upserted(g, NodeView { id, data: a }), NodeView { id, data: b });
            &&& has_node(h, id)
            &&& h.nodes[index_of(h, id)].data == b
            &&& forall|i: int| 0 <= i < h.nodes.len() && (#[trigger] h.nodes[i]).id == id ==> i
                == index_of(h, id)
        }),
{
    let na = NodeView { id, data: a };
    let nb = NodeView { id, data: b };
    let g1 = upserted(g, na);
    lemma_upserted_wf(g, na);
    lemma_upserted_wf(g1, nb);
    lemma_upserted_wf(g, nb);
    let h = upserted(g1, nb);
    if has_node(g, id) {
        assert(h.nodes =~= upserted(g, nb).nodes);
    } else {
        assert(h.nodes =~= upserted(g, nb).nodes);
    }
    assert forall|i: int| 0 <= i < h.nodes.len() && (#[trigger] h.nodes[i]).id == id implies i
        == index_of(h, id) by {
        if i != index_of(h, id) {
            assert(h.nodes[i].id != h.nodes[index_of(h, id)].id);
        }
    }
}

/// A copy of chunk metadata.
pub fn clone_meta(m: &ChunkMeta) -> (r: ChunkMeta)
    ensures
        r@ == m@,
{
    ChunkMeta {
        title: m.title.clone(),
        summary: m.summary.clone(),
        tags: crate::models::clone_strings(&m.tags),
        keywords: crate::models::clone_strings(&m.keywords),
        page_number: m.page_number,
        processed: m.processed,
    }
}

/// A copy of a node.
pub fn clone_node(n: &Node) -> (r: Node)
    ensures
        r@ == n@,
{
    let data = match &n.data {
        NodeData::Session(x) => NodeData::Session(
            EventNode { summary: x.summary.clone(), created_at: x.created_at },
        ),
        NodeData::Document(d) => NodeData::Document(
            DocumentNode {
                filename: d.filename.clone(),
                created_at: d.created_at,
                title: d.title.clone(),
                summary: d.summary.clone(),
            },
        ),
        NodeData::Chunk(c) => NodeData::Chunk(
            ChunkNode {
                content: c.content.clone(),
                page_index: c.page_index,
                metadata: clone_meta(&c.metadata),
            },
        ),
        NodeData::Entity(e) => NodeData::Entity(
            EntityNode {
                name: e.name.clone(),
                category: e.category.clone(),
                description: e.description.clone(),
            },
        ),
    };
    Node { id: n.id.duplicate(), data }
}

impl GraphStore {
    /// An empty store.
    pub fn new() -> (r: Self)
        ensures
            r@.nodes.len() == 0,
            r@.edges.len() == 0,
            wf(r@),
    {
        GraphStore { nodes: Vec::new(), edges: Vec::new() }
    }

    pub fn node_count(&self) -> (r: usize)
        ensures
            r == self@.nodes.len(),
    {
        self.nodes.len()
    }

    pub fn edge_count(&self) -> (r: usize)
        ensures
            r == self@.edges.len(),
    {
        self.edges.len()
    }

    pub fn node(&self, i: usize) -> (r: &Node)
        requires
            i < self@.nodes.len(),
        ensures
            r@ == self@.nodes[i as int],
    {
        &self.nodes[i]
    }

    pub fn edge(&self, i: usize) -> (r: &Edge)
        requires
            i < self@.edges.len(),
        ensures
            r@ == self@.edges[i as int],
    {
        &self.edges[i]
    }

    /// The position of the node with this id, if one is stored.
    pub fn find(&self, id: &RecordId) -> (r: Option<usize>)
        requires
            wf(self@),
        ensures
            r is None ==> !has_node(self@, id@),
            r matches Some(i) ==> i < self@.nodes.len() && self@.nodes[i as int].id == id@
                && index_of(self@, id@) == i,
    {
        let mut i: usize = 0;
        while i < self.nodes.len()
            invariant
                wf(self@),
                i <= self@.nodes.len(),
                forall|j: int| 0 <= j < i ==> (#[trigger] self@.nodes[j]).id != id@,
            decreases self.nodes.len() - i,
        {
            if self.nodes[i].id.same(id) {
                assert(self@.nodes[i as int] == self.nodes@[i as int]@);
                assert(self@.nodes[i as int].id == id@);
                assert(has_node(self@, id@));
                let ghost k = index_of(self@, id@);
                assert(self@.nodes[k].id == id@);
                assert(k == i as int) by {
                    if k != i as int {
                        assert(self@.nodes[k].id != self@.nodes[i as int].id);
                    }
                }
                return Some(i);
            }
            assert(self@.nodes[i as int] == self.nodes@[i as int]@);
            i = i + 1;
        }
        None
    }

    /// Stores a new node; refuses an id that is stored already.
    pub fn create_node(&mut self, id: RecordId, data: NodeData) -> (r: Result<(), StoreError>)
        requires
            wf(old(self)@),
        ensures
            wf(final(self)@),
            has_node(old(self)@, id@) ==> r is Err && final(self)@ == old(self)@,
            !has_node(old(self)@, id@) ==> r is Ok && final(self)@ == created(
                old(self)@,
                NodeView { id: id@, data: data@ },
            ),
    {
        match self.find(&id) {
            Some(_) => Err(StoreError::Duplicate { table: id.table, key: id.key }),
            None => {
                let ghost g = self@;
                self.nodes.push(Node { id, data });
                assert(self@.nodes =~= g.nodes.push(NodeView { id: id@, data: data@ }));
                assert(self@.edges =~= g.edges);
                Ok(())
            },
        }
    }

    /// Stores the node, replacing the one with the same id if there is one.
    pub fn upsert_node(&mut self, id: RecordId, data: NodeData)
        requires
            wf(old(self)@),
        ensures
            wf(final(self)@),
            final(self)@ == upserted(old(self)@, NodeView { id: id@, data: data@ }),
    {
        let ghost g = self@;
        let ghost n = NodeView { id: id@, data: data@ };
        match self.find(&id) {
            Some(i) => {
                self.nodes.set(i, Node { id, data });
                assert(self@.nodes =~= g.nodes.update(i as int, n));
            },
            None => {
                self.nodes.push(Node { id, data });
                assert(self@.nodes =~= g.nodes.push(n));
            },
        }
        assert(self@.edges =~= g.edges);
    }

    /// Adds a directed edge.
    pub fn relate(
        &mut self,
        kind: EdgeKind,
        from: RecordId,
        to: RecordId,
        relation: String,
        reason: String,
    )
        requires
            wf(old(self)@),
        ensures
            wf(final(self)@),
            final(self)@ == related(
                old(self)@,
                EdgeView {
                    kind,
                    from: from@,
                    to: to@,
                    relation: relation@,
                    reason: reason@,
                },
            ),
    {
        let ghost g = self@;
        let e = Edge { kind, from, to, relation, reason };
        let ghost ev = e@;
        self.edges.push(e);
        assert(self@.edges =~= g.edges.push(ev));
        assert(self@.nodes =~= g.nodes);
    }

    /// Marks the chunk with this id processed.
    pub fn mark_processed(&mut self, id: &RecordId)
        requires
            wf(old(self)@),
        ensures
            wf(final(self)@),
            final(self)@ == marked_processed(old(self)@, id@),
    {
        let ghost g = self@;
        match self.find(id) {
            Some(i) => {
                let mut n = Node {
                    id: RecordId { table: String::new(), key: String::new() },
                    data: NodeData::Session(
                        EventNode { summary: String::new(), created_at: 0 },
                    ),
                };
                self.nodes.set_and_swap(i, &mut n);
                assert(n@ == g.nodes[i as int]);
                match &mut n.data {
                    NodeData::Chunk(c) => {
                        c.metadata.processed = true;
                    },
                    _ => {},
                }
                assert(n@ == with_processed(g.nodes[i as int]));
                self.nodes.set(i, n);
                assert(self@.nodes =~= g.nodes.update(i as int, with_processed(g.nodes[i as int])));
                assert(self@.edges =~= g.edges);
            },
            None => {},
        }
    }

    /// Renames the entity with this id, or stores a placeholder entity of
    /// that name when there is none.
    pub fn name_entity(&mut self, id: RecordId, name: String)
        requires
            wf(old(self)@),
        ensures
            wf(final(self)@),
            final(self)@ == named_entity(old(self)@, id@, name@),
    {
        let ghost g = self@;
        match self.find(&id) {
            Some(i) => {
                let mut n = Node {
                    id: RecordId { table: String::new(), key: String::new() },
                    data: NodeData::Session(
                        EventNode { summary: String::new(), created_at: 0 },
                    ),
                };
                self.nodes.set_and_swap(i, &mut n);
                assert(n@ == g.nodes[i as int]);
                let is_entity = match &n.data {
                    NodeData::Entity(_) => true,
                    _ => false,
                };
                if is_entity {
                    let (category, description) = match n.data {
                        NodeData::Entity(e) => (e.category, e.description),
                        _ => (String::new(), String::new()),
                    };
                    let m = Node {
                        id: n.id,
                        data: NodeData::Entity(EntityNode { name, category, description }),
                    };
                    self.nodes.set(i, m);
                    assert(self@.nodes =~= named_entity(g, id@, name@).nodes);
                } else {
                    self.nodes.set(i, n);
                    assert(self@.nodes =~= g.nodes);
                }
                assert(self@.edges =~= g.edges);
            },
            None => {
                let n = Node {
                    id,
                    data: NodeData::Entity(
                        EntityNode { name, category: String::new(), description: String::new() },
                    ),
                };
                self.nodes.push(n);
                assert(self@.nodes =~= g.nodes.push(placeholder_entity(id@, name@)));
                assert(self@.edges =~= g.edges);
            },
        }
    }
}

} // verus!
