use crisper::graph::{ChunkMeta, DocumentNode, EdgeKind, EntityNode, GraphStore, NodeData, RecordId, StoreError};
use crisper::ingest::{ingest_document, start_session, PageInput};
use crisper::models::{DocSummaryResult, LlmEntity, LlmExtractionResult, LlmRelation};
use crisper::stage2::{apply_extraction, chunk_topics, construct_graph, entity_id, pending_chunks};

fn analysis(title: &str, tags: &[&str], keywords: &[&str]) -> DocSummaryResult {
    DocSummaryResult {
        title: title.to_string(),
        summary: format!("About {}", title),
        tags: tags.iter().map(|s| s.to_string()).collect(),
        keywords: keywords.iter().map(|s| s.to_string()).collect(),
    }
}

fn page(key: &str, text: &str, a: DocSummaryResult) -> PageInput {
    PageInput { key: key.to_string(), text: text.to_string(), analysis: a }
}

fn entity(name: &str) -> LlmEntity {
    LlmEntity { name: name.to_string(), category: "Person".to_string(), summary: String::new() }
}

fn count_edges(store: &GraphStore, kind: EdgeKind) -> usize {
    (0..store.edge_count()).filter(|&i| store.edge(i).kind == kind).count()
}

fn count_nodes(store: &GraphStore, table: &str) -> usize {
    (0..store.node_count()).filter(|&i| store.node(i).id.table == table).count()
}

fn is_processed(store: &GraphStore, key: &str) -> bool {
    let i = store.find(&RecordId::new("chunk", key)).unwrap();
    match &store.node(i).data {
        NodeData::Chunk(c) => c.metadata.processed,
        _ => false,
    }
}

/// A store with one session and one two-page document.
fn two_page_store() -> GraphStore {
    let mut store = GraphStore::new();
    let session = start_session(&mut store, "s1", "PDF Ingest: /docs", 1_704_067_200_000).unwrap();
    let pages = vec![
        page("c1", "Alice met Bob.", analysis("Meeting", &["People"], &["Alice", "Bob"])),
        page("c2", "Bob works at Acme.", analysis("Work", &["People"], &["Bob", "Acme"])),
    ];
    let summary = analysis("Report", &[], &[]);
    ingest_document(&mut store, &session, "d1", "report.pdf", 1_704_067_201_000, &summary, &pages)
        .unwrap();
    store
}

#[test]
fn upsert_twice_keeps_one_node_with_latest_content() {
    let mut store = GraphStore::new();
    let id = entity_id("Alice");
    let first = NodeData::Entity(EntityNode { name: "Alice".into(), category: "Person".into(), description: "old".into() });
    let second = NodeData::Entity(EntityNode { name: "ALICE".into(), category: "Person".into(), description: "new".into() });
    store.upsert_node(id.duplicate(), first);
    store.upsert_node(id.duplicate(), second);
    assert_eq!(store.node_count(), 1);
    match &store.node(0).data {
        NodeData::Entity(e) => {
            assert_eq!(e.name, "ALICE");
            assert_eq!(e.description, "new");
        }
        _ => panic!("not an entity"),
    }
    assert_eq!(store.node(0).id.key, "alice");
}

#[test]
fn create_refuses_a_taken_id() {
    let mut store = GraphStore::new();
    let id = RecordId::new("document", "d1");
    let doc = || {
        NodeData::Document(DocumentNode {
            filename: "a.pdf".into(),
            created_at: 7,
            title: "A".into(),
            summary: "s".into(),
        })
    };
    assert_eq!(store.create_node(id.duplicate(), doc()), Ok(()));
    assert_eq!(
        store.create_node(id.duplicate(), doc()),
        Err(StoreError::Duplicate { table: "document".into(), key: "d1".into() })
    );
    assert_eq!(store.node_count(), 1);
}

#[test]
fn ingest_creates_document_chunks_and_edges() {
    let store = two_page_store();
    assert_eq!(count_nodes(&store, "event"), 1);
    assert_eq!(count_nodes(&store, "document"), 1);
    assert_eq!(count_nodes(&store, "chunk"), 2);
    assert_eq!(count_edges(&store, EdgeKind::Imported), 1);
    assert_eq!(count_edges(&store, EdgeKind::Contains), 2);
    // Contains edges in unit order.
    let contains: Vec<String> = (0..store.edge_count())
        .filter(|&i| store.edge(i).kind == EdgeKind::Contains)
        .map(|i| store.edge(i).to.key.clone())
        .collect();
    assert_eq!(contains, vec!["c1", "c2"]);
    let i = store.find(&RecordId::new("chunk", "c2")).unwrap();
    match &store.node(i).data {
        NodeData::Chunk(c) => {
            assert_eq!(c.page_index, 1);
            assert_eq!(c.metadata.page_number, 2);
            assert_eq!(c.content, "Bob works at Acme.");
            assert!(!c.metadata.processed);
        }
        _ => panic!("not a chunk"),
    }
}

#[test]
fn ingest_stops_on_a_taken_chunk_id() {
    let mut store = two_page_store();
    let session = RecordId::new("event", "s1");
    let pages = vec![page("c9", "new", analysis("N", &[], &[])), page("c1", "dup", analysis("D", &[], &[]))];
    let r = ingest_document(&mut store, &session, "d2", "b.pdf", 9, &analysis("B", &[], &[]), &pages);
    assert_eq!(r.unwrap_err(), StoreError::Duplicate { table: "chunk".into(), key: "c1".into() });
    assert_eq!(count_nodes(&store, "document"), 2);
    assert_eq!(count_nodes(&store, "chunk"), 3);
}

#[test]
fn end_to_end_two_page_document() {
    let mut store = two_page_store();
    assert_eq!(count_nodes(&store, "document"), 1);
    assert_eq!(count_nodes(&store, "chunk"), 2);
    assert_eq!(count_edges(&store, EdgeKind::Contains), 2);

    let batch = pending_chunks(&store, 500);
    assert_eq!(batch.len(), 2);
    for id in &batch {
        let extracted = if id.key == "c1" {
            LlmExtractionResult { entities: vec![entity("Alice"), entity("Bob")], relations: vec![] }
        } else {
            LlmExtractionResult {
                entities: vec![entity("Bob"), entity("Acme")],
                relations: vec![LlmRelation {
                    head: "Bob".into(),
                    relation: "works_at".into(),
                    tail: "Acme".into(),
                    reason: "employment".into(),
                }],
            }
        };
        apply_extraction(&mut store, id, &extracted);
    }
    assert_eq!(count_nodes(&store, "entity"), 3);
    assert!(count_edges(&store, EdgeKind::Mentions) >= 2);
    assert_eq!(count_edges(&store, EdgeKind::RelatedTo), 1);
    assert!(is_processed(&store, "c1"));
    assert!(is_processed(&store, "c2"));
    assert!(pending_chunks(&store, 500).is_empty());
    let related = (0..store.edge_count()).map(|i| store.edge(i)).find(|e| e.kind == EdgeKind::RelatedTo).unwrap();
    assert_eq!(related.from.key, "bob");
    assert_eq!(related.to.key, "acme");
    assert_eq!(related.relation, "works_at");
    assert_eq!(related.reason, "employment");
}

#[test]
fn relation_ends_get_placeholders() {
    let mut store = two_page_store();
    let chunk = RecordId::new("chunk", "c1");
    let extracted = LlmExtractionResult {
        entities: vec![],
        relations: vec![LlmRelation {
            head: "Carol".into(),
            relation: "knows".into(),
            tail: "Dave".into(),
            reason: String::new(),
        }],
    };
    apply_extraction(&mut store, &chunk, &extracted);
    let i = store.find(&RecordId::new("entity", "carol")).unwrap();
    match &store.node(i).data {
        NodeData::Entity(e) => {
            assert_eq!(e.name, "Carol");
            assert_eq!(e.category, "");
            assert_eq!(e.description, "");
        }
        _ => panic!("not an entity"),
    }
    assert!(store.find(&RecordId::new("entity", "dave")).is_some());
}

#[test]
fn construct_graph_links_keywords_and_marks_chunks() {
    let mut store = two_page_store();
    let taken = construct_graph(&mut store, 500);
    assert_eq!(taken, 2);
    // Topics: People, Alice, Bob (c1); People, Bob, Acme (c2).
    assert_eq!(count_nodes(&store, "entity"), 4);
    assert_eq!(count_edges(&store, EdgeKind::Mentions), 6);
    assert!(is_processed(&store, "c1"));
    assert!(is_processed(&store, "c2"));
    let i = store.find(&RecordId::new("entity", "acme")).unwrap();
    match &store.node(i).data {
        NodeData::Entity(e) => {
            assert_eq!(e.name, "Acme");
            assert_eq!(e.category, "Keyword");
            assert_eq!(e.description, "Extracted keyword: Acme");
        }
        _ => panic!("not an entity"),
    }
}

#[test]
fn construct_graph_twice_writes_nothing_the_second_time() {
    let mut store = two_page_store();
    construct_graph(&mut store, 500);
    let (nodes, edges) = (store.node_count(), store.edge_count());
    assert_eq!(construct_graph(&mut store, 500), 0);
    assert_eq!(store.node_count(), nodes);
    assert_eq!(store.edge_count(), edges);
}

#[test]
fn construct_graph_takes_a_bounded_batch() {
    let mut store = two_page_store();
    assert_eq!(construct_graph(&mut store, 1), 1);
    assert!(is_processed(&store, "c1"));
    assert!(!is_processed(&store, "c2"));
    assert_eq!(construct_graph(&mut store, 1), 1);
    assert!(is_processed(&store, "c2"));
    assert_eq!(construct_graph(&mut store, 1), 0);
}

#[test]
fn chunk_topics_trims_and_dedups() {
    let meta = ChunkMeta {
        title: "t".into(),
        summary: "s".into(),
        tags: vec!["Tech".into(), " Tech ".into()],
        keywords: vec!["Python".into(), "  ".into(), "Tech".into()],
        page_number: 1,
        processed: false,
    };
    assert_eq!(chunk_topics(&meta), vec!["Tech", "Python"]);
}

#[test]
fn fresh_keys_are_uuids() {
    let a = crisper::keys::new_record_key();
    let b = crisper::keys::new_record_key();
    assert_eq!(a.len(), 36);
    assert_eq!(a.chars().filter(|&c| c == '-').count(), 4);
    assert_ne!(a, b);
    let p = crisper::keys::fresh_page_input("text".into(), analysis("T", &[], &[]));
    assert_eq!(p.text, "text");
    assert_eq!(p.analysis.title, "T");
    assert_eq!(p.key.len(), 36);
}
