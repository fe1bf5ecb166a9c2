//! The read-only projection of the store that a renderer draws: nodes with a
//! group, a label and a size, and labelled links.

use vstd::prelude::*;
use crate::text::{decimal, push_text, push_decimal, string_of};
use crate::models::{GraphNode, GraphLink, GraphData};
use crate::graph::{
    RecordId,
    RecordIdView,
    NodeData,
    NodeDataView,
    NodeView,
    EdgeKind,
    EdgeView,
    GraphStore,
};

verus! {

/// Which part of the graph to show: everything, or the entities and the
/// relations between them alone.
#[derive(Debug, Clone, Copy, PartialEq, Eq, Structural)]
pub enum ViewMode {
    All,
    Knowledge,
}

/// Size of a document node.
pub const DOCUMENT_SIZE: usize = 20;

/// Size of a chunk node.
pub const CHUNK_SIZE: usize = 5;

/// Size of an entity node.
pub const ENTITY_SIZE: usize = 10;

/// How many characters of a chunk its preview shows.
pub const PREVIEW_CHARS: usize = 50;

pub const UNTITLED: &'static str = "Untitled";

pub const DOCUMENT_INFO: &'static str = "Original PDF Document";

pub const ELLIPSIS: &'static str = "...";

pub struct GraphNodeView {
    pub id: Seq<char>,
    pub group: Seq<char>,
    pub label: Seq<char>,
    pub val: nat,
    pub info: Option<Seq<char>>,
}

pub struct GraphLinkView {
    pub source: Seq<char>,
    pub target: Seq<char>,
    pub label: Option<Seq<char>>,
}

pub open spec fn opt_view(o: Option<String>) -> Option<Seq<char>> {
    match o {
        Some(s) => Some(s@),
        None => None,
    }
}

impl View for GraphNode {
    type V = GraphNodeView;

    open spec fn view(&self) -> GraphNodeView {
        GraphNodeView {
            id: self.id@,
            group: self.group@,
            label: self.label@,
            val: self.val as nat,
            info: opt_view(self.info),
        }
    }
}

impl View for GraphLink {
    type V = GraphLinkView;

    open spec fn view(&self) -> GraphLinkView {
        GraphLinkView { source: self.source@, target: self.target@, label: opt_view(self.label) }
    }
}

/// A record id as the renderer names it: `table:key`.
pub open spec fn id_text(id: RecordIdView) -> Seq<char> {
    id.table + seq![':'] + id.key
}

/// The first `PREVIEW_CHARS` characters of a text, then an ellipsis.
pub open spec fn preview(content: Seq<char>) -> Seq<char> {
    (if content.len() <= PREVIEW_CHARS {
        content
    } else {
        content.take(PREVIEW_CHARS as int)
    }) + ELLIPSIS@
}

/// How a node is shown, if it is shown in this mode: documents and chunks
/// in the full view only, entities always, sessions never.
pub open spec fn node_entry(n: NodeView, mode: ViewMode) -> Option<GraphNodeView> {
    match n.data {
        NodeDataView::Document { filename, .. } => if mode == ViewMode::All {
            Some(
                GraphNodeView {
                    id: id_text(n.id),
                    group: n.id.table,
                    label: if filename.len() == 0 {
                        UNTITLED@
                    } else {
                        filename
                    },
                    val: DOCUMENT_SIZE as nat,
                    info: Some(DOCUMENT_INFO@),
                },
            )
        } else {
            None
        },
        NodeDataView::Chunk { content, meta, .. } => if mode == ViewMode::All {
            Some(
                GraphNodeView {
                    id: id_text(n.id),
                    group: n.id.table,
                    label: seq!['p', '.'] + decimal(meta.page_number) + seq![':', ' '] + meta.title,
                    val: CHUNK_SIZE as nat,
                    info: Some(preview(content)),
                },
            )
        } else {
            None
        },
        NodeDataView::Entity { name, category, description } => Some(
            GraphNodeView {
                id: id_text(n.id),
                group: n.id.table,
                label: name,
                val: ENTITY_SIZE as nat,
                info: Some(seq!['['] + category + seq![']', ' '] + description),
            },
        ),
        NodeDataView::Session { .. } => None,
    }
}

/// How an edge is shown, if it is shown in this mode: relations always, with
/// their label; containment and mentions in the full view only; imports never.
pub open spec fn edge_entry(e: EdgeView, mode: ViewMode) -> Option<GraphLinkView> {
    let link = GraphLinkView { source: id_text(e.from), target: id_text(e.to), label: None };
    match e.kind {
        EdgeKind::RelatedTo => Some(GraphLinkView { label: Some(e.relation), ..link }),
        EdgeKind::Contains | EdgeKind::Mentions => if mode == ViewMode::All {
            Some(link)
        } else {
            None
        },
        EdgeKind::Imported => None,
    }
}

/// The entries of the nodes that are shown, in store order.
pub open spec fn node_entries(nodes: Seq<NodeView>, mode: ViewMode) -> Seq<GraphNodeView>
    decreases nodes.len(),
{
    if nodes.len() == 0 {
        Seq::empty()
    } else {
        node_entries(nodes.drop_last(), mode) + match node_entry(nodes.last(), mode) {
            Some(x) => seq![x],
            None => Seq::empty(),
        }
    }
}

/// The entries of the edges that are shown, in store order.
pub open spec fn edge_entries(edges: Seq<EdgeView>, mode: ViewMode) -> Seq<GraphLinkView>
    decreases edges.len(),
{
    if edges.len() == 0 {
        Seq::empty()
    } else {
        edge_entries(edges.drop_last(), mode) + match edge_entry(edges.last(), mode) {
            Some(x) => seq![x],
            None => Seq::empty(),
        }
    }
}

fn id_string(id: &RecordId) -> (r: String)
    ensures
        r@ == id_text(id@),
{
    let mut v: Vec<char> = Vec::new();
    push_text(&mut v, id.table.as_str());
    v.push(':');
    push_text(&mut v, id.key.as_str());
    assert(v@ =~= id_text(id@));
    string_of(v.as_slice())
}

fn preview_string(content: &String) -> (r: String)
    ensures
        r@ == preview(content@),
{
    let chars = crate::text::chars_of(content.as_str());
    let n = if chars.len() <= PREVIEW_CHARS {
        chars.len()
    } else {
        PREVIEW_CHARS
    };
    let mut v = crate::text::copy_range(&chars, 0, n);
    push_text(&mut v, ELLIPSIS);
    assert(chars@.len() <= PREVIEW_CHARS ==> chars@.subrange(0, n as int) =~= chars@);
    string_of(v.as_slice())
}

fn node_entry_of(n: &crate::graph::Node, mode: ViewMode) -> (r: Option<GraphNode>)
    ensures
        match r {
            Some(x) => node_entry(n@, mode) == Some(x@),
            None => node_entry(n@, mode) is None,
        },
{
    match &n.data {
        NodeData::Document(d) => {
            let filename = &d.filename;
            if mode == ViewMode::All {
                let label = if filename.as_str().is_empty() {
                    String::from_str(UNTITLED)
                } else {
                    filename.clone()
                };
                Some(
                    GraphNode {
                        id: id_string(&n.id),
                        group: n.id.table.clone(),
                        label,
                        val: DOCUMENT_SIZE,
                        info: Some(String::from_str(DOCUMENT_INFO)),
                    },
                )
            } else {
                None
            }
        },
        NodeData::Chunk(c) => {
            let content = &c.content;
            let meta = &c.metadata;
            if mode == ViewMode::All {
                let mut label: Vec<char> = Vec::new();
                label.push('p');
                label.push('.');
                push_decimal(&mut label, meta.page_number);
                label.push(':');
                label.push(' ');
                push_text(&mut label, meta.title.as_str());
                assert(label@ =~= seq!['p', '.'] + decimal(meta.page_number as nat) + seq![':', ' ']
                    + meta.title@);
                Some(
                    GraphNode {
                        id: id_string(&n.id),
                        group: n.id.table.clone(),
                        label: string_of(label.as_slice()),
                        val: CHUNK_SIZE,
                        info: Some(preview_string(content)),
                    },
                )
            } else {
                None
            }
        },
        NodeData::Entity(e) => {
            let name = &e.name;
            let category = &e.category;
            let description = &e.description;
            let mut info: Vec<char> = Vec::new();
            info.push('[');
            push_text(&mut info, category.as_str());
            info.push(']');
            info.push(' ');
            push_text(&mut info, description.as_str());
            assert(info@ =~= seq!['['] + category@ + seq![']', ' '] + description@);
            Some(
                GraphNode {
                    id: id_string(&n.id),
                    group: n.id.table.clone(),
                    label: name.clone(),
                    val: ENTITY_SIZE,
                    info: Some(string_of(info.as_slice())),
                },
            )
        },
        NodeData::Session(_) => None,
    }
}

fn edge_entry_of(e: &crate::graph::Edge, mode: ViewMode) -> (r: Option<GraphLink>)
    ensures
        match r {
            Some(x) => edge_entry(e@, mode) == Some(x@),
            None => edge_entry(e@, mode) is None,
        },
{
    let shown = match e.kind {
        EdgeKind::RelatedTo => true,
        EdgeKind::Contains | EdgeKind::Mentions => mode == ViewMode::All,
        EdgeKind::Imported => false,
    };
    if !shown {
        return None;
    }
    let label = match e.kind {
        EdgeKind::RelatedTo => Some(e.relation.clone()),
        _ => None,
    };
    Some(GraphLink { source: id_string(&e.from), target: id_string(&e.to), label })
}

/// The graph view of the store: in the full view documents, chunks and
/// entities with the containment, mention and relation links between them;
/// in the knowledge view entities and relations alone. Store order is kept.
pub fn fetch_graph_data(store: &GraphStore, mode: ViewMode) -> (r: GraphData)
    ensures
        r.nodes@.map_values(|x: GraphNode| x@) == node_entries(store@.nodes, mode),
        r.links@.map_values(|x: GraphLink| x@) == edge_entries(store@.edges, mode),
{
    let ghost ns = store@.nodes;
    let mut nodes: Vec<GraphNode> = Vec::new();
    let mut i: usize = 0;
    let n = store.node_count();
    assert(ns.take(0) =~= Seq::<NodeView>::empty());
    assert(nodes@.map_values(|x: GraphNode| x@) =~= Seq::<GraphNodeView>::empty());
    while i < n
        invariant
            ns == store@.nodes,
            n == ns.len(),
            i <= n,
            nodes@.map_values(|x: GraphNode| x@) == node_entries(ns.take(i as int), mode),
        decreases n - i,
    {
        let node = store.node(i);
        assert(ns.take(i + 1).drop_last() =~= ns.take(i as int));
        assert(ns.take(i + 1).last() == ns[i as int]);
        let ghost before = nodes@.map_values(|x: GraphNode| x@);
        match node_entry_of(node, mode) {
            Some(x) => {
                let ghost xv = x@;
                nodes.push(x);
                assert(nodes@.map_values(|x: GraphNode| x@) =~= before + seq![xv]);
            },
            None => {
                assert(before + Seq::<GraphNodeView>::empty() =~= before);
            },
        }
        i = i + 1;
    }
    assert(ns.take(n as int) =~= ns);
    let ghost es = store@.edges;
    let mut links: Vec<GraphLink> = Vec::new();
    let mut j: usize = 0;
    let m = store.edge_count();
    assert(es.take(0) =~= Seq::<EdgeView>::empty());
    assert(links@.map_values(|x: GraphLink| x@) =~= Seq::<GraphLinkView>::empty());
    while j < m
        invariant
            es == store@.edges,
            m == es.len(),
            j <= m,
            links@.map_values(|x: GraphLink| x@) == edge_entries(es.take(j as int), mode),
        decreases m - j,
    {
        let edge = store.edge(j);
        assert(es.take(j + 1).drop_last() =~= es.take(j as int));
        assert(es.take(j + 1).last() == es[j as int]);
        let ghost before = links@.map_values(|x: GraphLink| x@);
        match edge_entry_of(edge, mode) {
            Some(x) => {
                let ghost xv = x@;
                links.push(x);
                assert(links@.map_values(|x: GraphLink| x@) =~= before + seq![xv]);
            },
            None => {
                assert(before + Seq::<GraphLinkView>::empty() =~= before);
            },
        }
        j = j + 1;
    }
    assert(es.take(m as int) =~= es);
    GraphData { nodes, links }
}

} // verus!
