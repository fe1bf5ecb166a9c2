use crisper::chatlog::{clean_chat_line, clean_chat_log, split_lines};
use crisper::documents::get_documents;
use crisper::graph::{ChunkMeta, ChunkNode, DocumentNode, EdgeKind, GraphStore, NodeData, RecordId};
use crisper::ingest::{ingest_document, start_session, PageInput};
use crisper::models::{DocSummaryResult, LlmEntity, LlmExtractionResult, LlmRelation};
use crisper::query::{fetch_graph_data, ViewMode};
use crisper::report::log_node_click;
use crisper::request::{completions_endpoint, fallback_page_title, summary_context, summary_input};
use crisper::stage2::apply_extraction;

fn summary(title: &str) -> DocSummaryResult {
    DocSummaryResult { title: title.into(), summary: "s".into(), tags: vec![], keywords: vec![] }
}

fn store_with_graph() -> GraphStore {
    let mut store = GraphStore::new();
    let session = start_session(&mut store, "s1", "run", 100).unwrap();
    let pages = vec![
        PageInput { key: "c1".into(), text: "Alice met Bob.".into(), analysis: summary("Meeting") },
        PageInput { key: "c2".into(), text: "x".repeat(60), analysis: summary("Long") },
    ];
    ingest_document(&mut store, &session, "d1", "", 200, &summary("Doc"), &pages).unwrap();
    let extracted = LlmExtractionResult {
        entities: vec![LlmEntity { name: "Bob".into(), category: "Person".into(), summary: "a person".into() }],
        relations: vec![LlmRelation {
            head: "Bob".into(),
            relation: "works_at".into(),
            tail: "Acme".into(),
            reason: "r".into(),
        }],
    };
    apply_extraction(&mut store, &RecordId::new("chunk", "c1"), &extracted);
    store
}

#[test]
fn graph_view_all_mode() {
    let store = store_with_graph();
    let g = fetch_graph_data(&store, ViewMode::All);
    let ids: Vec<&str> = g.nodes.iter().map(|n| n.id.as_str()).collect();
    assert_eq!(ids, vec!["document:d1", "chunk:c1", "chunk:c2", "entity:bob", "entity:acme"]);
    assert_eq!(g.nodes[0].label, "Untitled");
    assert_eq!(g.nodes[0].val, 20);
    assert_eq!(g.nodes[0].info.as_deref(), Some("Original PDF Document"));
    assert_eq!(g.nodes[1].label, "p.1: Meeting");
    assert_eq!(g.nodes[1].info.as_deref(), Some("Alice met Bob...."));
    assert_eq!(g.nodes[2].label, "p.2: Long");
    assert_eq!(g.nodes[2].info.as_deref(), Some(format!("{}...", "x".repeat(50)).as_str()));
    assert_eq!(g.nodes[3].group, "entity");
    assert_eq!(g.nodes[3].info.as_deref(), Some("[Person] a person"));
    assert_eq!(g.nodes[4].info.as_deref(), Some("[] "));
    // Contains, Contains, Mentions, RelatedTo (Imported is not shown).
    assert_eq!(g.links.len(), 4);
    assert_eq!(g.links[0].source, "document:d1");
    assert_eq!(g.links[0].target, "chunk:c1");
    assert_eq!(g.links[2].target, "entity:bob");
    assert_eq!(g.links[3].label.as_deref(), Some("works_at"));
}

#[test]
fn graph_view_knowledge_mode() {
    let store = store_with_graph();
    let g = fetch_graph_data(&store, ViewMode::Knowledge);
    let ids: Vec<&str> = g.nodes.iter().map(|n| n.id.as_str()).collect();
    assert_eq!(ids, vec!["entity:bob", "entity:acme"]);
    assert_eq!(g.links.len(), 1);
    assert_eq!(g.links[0].source, "entity:bob");
    assert_eq!(g.links[0].target, "entity:acme");
}

#[test]
fn documents_newest_first_with_their_chunks() {
    let mut store = store_with_graph();
    let session = RecordId::new("event", "s1");
    let pages = vec![PageInput { key: "c3".into(), text: "later".into(), analysis: summary("L") }];
    ingest_document(&mut store, &session, "d2", "b.pdf", 300, &summary("B"), &pages).unwrap();
    let docs = get_documents(&store);
    assert_eq!(docs.len(), 2);
    assert_eq!(docs[0].document.id.key, "d2");
    assert_eq!(docs[1].document.id.key, "d1");
    let keys: Vec<&str> = docs[1].chunks.iter().map(|c| c.id.key.as_str()).collect();
    assert_eq!(keys, vec!["c1", "c2"]);
    match &docs[1].chunks[1].data {
        NodeData::Chunk(c) => assert_eq!(c.page_index, 1),
        _ => panic!("not a chunk"),
    }
    assert_eq!(docs[0].chunks.len(), 1);
}

#[test]
fn click_messages_by_group() {
    assert_eq!(
        log_node_click("entity:bob", "entity", "Bob", Some("Person")),
        "🧠 Entity 클릭\n- id: entity:bob\n- name: Bob\n- category: Person"
    );
    assert_eq!(
        log_node_click("entity:bob", "entity", "Bob", None),
        "🧠 Entity 클릭\n- id: entity:bob\n- name: Bob\n- category: unknown"
    );
    assert_eq!(
        log_node_click("document:d1", "document", "a.pdf", None),
        "📄 Document 클릭\n- id: document:d1\n- filename: a.pdf"
    );
    assert_eq!(
        log_node_click("chunk:c1", "chunk", "p.1: Intro", None),
        "📌 Chunk 클릭\n- id: chunk:c1\n- page: p.1: Intro"
    );
    assert_eq!(log_node_click("x", "other", "L", None), "🔹 Node 클릭\n- id: x\n- label: L");
}

#[test]
fn request_helpers() {
    assert_eq!(completions_endpoint("http://127.0.0.1:8081/v1/"), "http://127.0.0.1:8081/v1/chat/completions");
    assert_eq!(completions_endpoint("http://h/v1"), "http://h/v1/chat/completions");
    assert_eq!(summary_input(&"가".repeat(2500)).chars().count(), 2000);
    assert_eq!(summary_input("short"), "short");
    assert_eq!(summary_context(&vec!["p1".into(), "p2".into(), "p3".into()]), "p1\np2");
    assert_eq!(summary_context(&vec!["only".into()]), "only");
    assert_eq!(summary_context(&vec![]), "");
    assert_eq!(fallback_page_title(0), "Page 1");
    assert_eq!(fallback_page_title(41), "Page 42");
    assert_eq!(fallback_page_title(99), "Page 100");
}

#[test]
fn chat_lines_are_shortened() {
    assert_eq!(clean_chat_line("[김철수] [오후 2:00] 배포 일정 어떻게 돼?"), "김철수: 배포 일정 어떻게 돼?");
    assert_eq!(clean_chat_line("--- 2024년 1월 1일 ---"), "--- 2024년 1월 1일 ---");
}

#[test]
fn chat_log_lines_are_split_and_joined() {
    assert_eq!(split_lines("a\r\nb\n\nc\n"), vec!["a", "b", "", "c"]);
    assert_eq!(split_lines(""), Vec::<String>::new());
    let log = "--- day ---\n[A] [10:00] hi\n[B] [10:01] hello there\n";
    assert_eq!(clean_chat_log(log), "--- day ---\nA: hi\nB: hello there");
}

fn doc_node(filename: &str, created_at: u64) -> NodeData {
    NodeData::Document(DocumentNode {
        filename: filename.into(),
        created_at,
        title: String::new(),
        summary: String::new(),
    })
}

fn chunk_node(page_index: usize) -> NodeData {
    NodeData::Chunk(ChunkNode {
        content: format!("page {}", page_index),
        page_index,
        metadata: ChunkMeta {
            title: String::new(),
            summary: String::new(),
            tags: vec![],
            keywords: vec![],
            page_number: page_index + 1,
            processed: false,
        },
    })
}

#[test]
fn documents_sorted_by_creation_time_not_store_order() {
    let mut store = GraphStore::new();
    store.create_node(RecordId::new("document", "old"), doc_node("old.pdf", 10)).unwrap();
    store.create_node(RecordId::new("document", "new"), doc_node("new.pdf", 30)).unwrap();
    store.create_node(RecordId::new("document", "mid"), doc_node("mid.pdf", 20)).unwrap();
    store.create_node(RecordId::new("document", "mid2"), doc_node("mid2.pdf", 20)).unwrap();
    let docs = get_documents(&store);
    let keys: Vec<&str> = docs.iter().map(|d| d.document.id.key.as_str()).collect();
    assert_eq!(keys, vec!["new", "mid", "mid2", "old"]);
}

#[test]
fn chunks_sorted_by_page_index_not_link_order() {
    let mut store = GraphStore::new();
    let doc = RecordId::new("document", "d");
    store.create_node(doc.duplicate(), doc_node("d.pdf", 1)).unwrap();
    for (key, index) in [("c2", 2usize), ("c0", 0), ("c1", 1)] {
        let id = RecordId::new("chunk", key);
        store.create_node(id.duplicate(), chunk_node(index)).unwrap();
        store.relate(EdgeKind::Contains, doc.duplicate(), id, String::new(), String::new());
    }
    let docs = get_documents(&store);
    assert_eq!(docs.len(), 1);
    let keys: Vec<&str> = docs[0].chunks.iter().map(|c| c.id.key.as_str()).collect();
    assert_eq!(keys, vec!["c0", "c1", "c2"]);
}
