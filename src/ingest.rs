//! The ingestion stage: one session per run, one document per source file,
//! one chunk per unit of text, linked in unit order.

use vstd::prelude::*;
use crate::models::{clone_strings, DocSummaryResult, DocSummaryView};
use crate::graph::{
    SESSION_TABLE,
    DOCUMENT_TABLE,
    CHUNK_TABLE,
    RecordId,
    RecordIdView,
    ChunkMeta,
    ChunkMetaView,
    NodeData,
    EventNode,
    DocumentNode,
    ChunkNode,
    NodeDataView,
    NodeView,
    EdgeKind,
    EdgeView,
    GraphView,
    GraphStore,
    StoreError,
    has_node,
    wf,
    created,
    related,
};

verus! {

/// One unit of a document: the key its chunk is stored under, its text, and
/// what its analysis returned (or the failure-marked default).
pub struct PageInput {
    pub key: String,
    pub text: String,
    pub analysis: DocSummaryResult,
}

pub struct PageInputView {
    pub key: Seq<char>,
    pub text: Seq<char>,
    pub analysis: DocSummaryView,
}

impl View for PageInput {
    type V = PageInputView;

    open spec fn view(&self) -> PageInputView {
        PageInputView { key: self.key@, text: self.text@, analysis: self.analysis@ }
    }
}

pub open spec fn page_views(v: Seq<PageInput>) -> Seq<PageInputView> {
    v.map_values(|p: PageInput| p@)
}

pub open spec fn record(table: &str, key: Seq<char>) -> RecordIdView {
    RecordIdView { table: table@, key }
}

/// The chunk node of the unit at position `i`.
pub open spec fn chunk_node(p: PageInputView, i: nat) -> NodeView {
    NodeView {
        id: record(CHUNK_TABLE, p.key),
        data: NodeDataView::Chunk {
            content: p.text,
            page_index: i,
            meta: ChunkMetaView {
                title: p.analysis.title,
                summary: p.analysis.summary,
                tags: p.analysis.tags,
                keywords: p.analysis.keywords,
                page_number: i + 1,
                processed: false,
            },
        },
    }
}

pub open spec fn system_edge(kind: EdgeKind, from: RecordIdView, to: RecordIdView) -> EdgeView {
    EdgeView { kind, from, to, relation: Seq::empty(), reason: Seq::empty() }
}

/// `g` after the units from position `i` on are stored as chunks, each linked
/// from the document; the flag is false when a chunk's id was taken, and the
/// writes stop there.
pub open spec fn written_pages(g: GraphView, doc: RecordIdView, pages: Seq<PageInputView>, i: int) -> (
    GraphView,
    bool,
)
    decreases pages.len() - i,
{
    if i < 0 || i >= pages.len() {
        (g, true)
    } else if has_node(g, record(CHUNK_TABLE, pages[i].key)) {
        (g, false)
    } else {
        written_pages(
            related(
                created(g, chunk_node(pages[i], i as nat)),
                system_edge(EdgeKind::Contains, doc, record(CHUNK_TABLE, pages[i].key)),
            ),
            doc,
            pages,
            i + 1,
        )
    }
}

/// The document node of a file.
pub open spec fn document_node(
    id: RecordIdView,
    filename: Seq<char>,
    created_at: nat,
    summary: DocSummaryView,
) -> NodeView {
    NodeView {
        id,
        data: NodeDataView::Document {
            filename,
            created_at,
            title: summary.title,
            summary: summary.summary,
        },
    }
}

/// `g` after a file is stored: its document node, the `Imported` edge from
/// the session, then its chunks; the flag is false when an id was taken.
pub open spec fn ingested(
    g: GraphView,
    session: RecordIdView,
    doc_key: Seq<char>,
    filename: Seq<char>,
    created_at: nat,
    summary: DocSummaryView,
    pages: Seq<PageInputView>,
) -> (GraphView, bool) {
    let doc = record(DOCUMENT_TABLE, doc_key);
    if has_node(g, doc) {
        (g, false)
    } else {
        written_pages(
            related(
                created(g, document_node(doc, filename, created_at, summary)),
                system_edge(EdgeKind::Imported, session, doc),
            ),
            doc,
            pages,
            0,
        )
    }
}

/// Stores the session node of an ingestion run.
pub fn start_session(store: &mut GraphStore, key: &str, summary: &str, created_at: u64) -> (r: Result<
    RecordId,
    StoreError,
>)
    requires
        wf(old(store)@),
    ensures
        wf(final(store)@),
        has_node(old(store)@, record(SESSION_TABLE, key@)) ==> r is Err && final(store)@ == old(
            store,
        )@,
        !has_node(old(store)@, record(SESSION_TABLE, key@)) ==> (r matches Ok(id) && id@ == record(
            SESSION_TABLE,
            key@,
        )),
        !has_node(old(store)@, record(SESSION_TABLE, key@)) ==> final(store)@ == created(
            old(store)@,
            NodeView {
                id: record(SESSION_TABLE, key@),
                data: NodeDataView::Session { summary: summary@, created_at: created_at as nat },
            },
        ),
{
    let id = RecordId::new(SESSION_TABLE, key);
    let data = NodeData::Session(
        EventNode { summary: String::from_str(summary), created_at },
    );
    match store.create_node(id.duplicate(), data) {
        Ok(()) => Ok(id),
        Err(e) => Err(e),
    }
}

/// Stores one file: a document node linked from the session, then one chunk
/// per unit, in unit order, each linked from the document with its page
/// index and a metadata record of its analysis, not yet processed. Fails on
/// the first id that is taken, keeping what was written before it.
pub fn ingest_document(
    store: &mut GraphStore,
    session: &RecordId,
    doc_key: &str,
    filename: &str,
    created_at: u64,
    summary: &DocSummaryResult,
    pages: &Vec<PageInput>,
) -> (r: Result<RecordId, StoreError>)
    requires
        wf(old(store)@),
    ensures
        wf(final(store)@),
        final(store)@ == ingested(
            old(store)@,
            session@,
            doc_key@,
            filename@,
            created_at as nat,
            summary@,
            page_views(pages@),
        ).0,
        r is Ok <==> ingested(
            old(store)@,
            session@,
            doc_key@,
            filename@,
            created_at as nat,
            summary@,
            page_views(pages@),
        ).1,
        r matches Ok(id) ==> id@ == record(DOCUMENT_TABLE, doc_key@),
{
    let doc = RecordId::new(DOCUMENT_TABLE, doc_key);
    let data = NodeData::Document(
        DocumentNode {
            filename: String::from_str(filename),
            created_at,
            title: summary.title.clone(),
            summary: summary.summary.clone(),
        },
    );
    match store.create_node(doc.duplicate(), data) {
        Ok(()) => {},
        Err(e) => {
            return Err(e);
        },
    }
    store.relate(EdgeKind::Imported, session.duplicate(), doc.duplicate(), String::new(), String::new());
    let ghost ps = page_views(pages@);
    let ghost target = ingested(
        old(store)@,
        session@,
        doc_key@,
        filename@,
        created_at as nat,
        summary@,
        ps,
    );
    let mut i: usize = 0;
    while i < pages.len()
        invariant
            ps == page_views(pages@),
            i <= ps.len(),
            wf(store@),
            doc@ == record(DOCUMENT_TABLE, doc_key@),
            written_pages(store@, doc@, ps, i as int) == target,
            target == ingested(
                old(store)@,
                session@,
                doc_key@,
                filename@,
                created_at as nat,
                summary@,
                ps,
            ),
        decreases pages.len() - i,
    {
        let p = &pages[i];
        assert(ps[i as int] == p@);
        let id = RecordId { table: String::from_str(CHUNK_TABLE), key: p.key.clone() };
        let meta = ChunkMeta {
            title: p.analysis.title.clone(),
            summary: p.analysis.summary.clone(),
            tags: clone_strings(&p.analysis.tags),
            keywords: clone_strings(&p.analysis.keywords),
            page_number: i + 1,
            processed: false,
        };
        let data = NodeData::Chunk(ChunkNode { content: p.text.clone(), page_index: i, metadata: meta });
        let ghost before = store@;
        assert(id@ == record(CHUNK_TABLE, ps[i as int].key));
        match store.create_node(id.duplicate(), data) {
            Ok(()) => {},
            Err(e) => {
                assert(has_node(before, id@));
                assert(written_pages(before, doc@, ps, i as int) == (before, false));
                return Err(e);
            },
        }
        store.relate(EdgeKind::Contains, doc.duplicate(), id, String::new(), String::new());
        i = i + 1;
    }
    Ok(doc)
}

} // verus!
