use crisper::canonical::sanitize_id;
use crisper::chunker::{chunk_text, ChunkError};
use crisper::corpus::rig_docs;
use crisper::models::{default_category, default_string};
use crisper::repair::{clean_and_repair_json, clean_json_response, close_truncated_json};

fn balanced(s: &str) -> bool {
    let count = |c: char| s.chars().filter(|&x| x == c).count();
    count('[') == count(']') && count('{') == count('}')
}

#[test]
fn chunk_text_slides_with_overlap() {
    let chunks = chunk_text("abcdefghij", 4, 1).unwrap();
    assert_eq!(chunks, vec!["abcd", "defg", "ghij"]);
}

#[test]
fn chunk_text_last_window_may_be_short() {
    let chunks = chunk_text("abcdefgh", 4, 1).unwrap();
    assert_eq!(chunks, vec!["abcd", "defg", "gh"]);
}

#[test]
fn chunk_text_drops_blank_windows() {
    let chunks = chunk_text("ab    cd", 2, 0).unwrap();
    assert_eq!(chunks, vec!["ab", "cd"]);
}

#[test]
fn chunk_text_empty_text_gives_no_chunks() {
    assert_eq!(chunk_text("", 5, 2).unwrap(), Vec::<String>::new());
    assert_eq!(chunk_text("   \n\t ", 3, 1).unwrap(), Vec::<String>::new());
}

#[test]
fn chunk_text_counts_characters_not_bytes() {
    let chunks = chunk_text("가나다라마", 2, 0).unwrap();
    assert_eq!(chunks, vec!["가나", "다라", "마"]);
}

#[test]
fn chunk_text_refuses_overlap_not_below_size() {
    assert_eq!(
        chunk_text("abc", 4, 4),
        Err(ChunkError::InvalidConfiguration { chunk_size: 4, overlap: 4 })
    );
    assert_eq!(
        chunk_text("abc", 2, 5),
        Err(ChunkError::InvalidConfiguration { chunk_size: 2, overlap: 5 })
    );
    assert_eq!(
        chunk_text("abc", 0, 0),
        Err(ChunkError::InvalidConfiguration { chunk_size: 0, overlap: 0 })
    );
}

#[test]
fn chunk_text_covers_every_character() {
    let text = "The quick brown fox jumps over the lazy dog";
    let (size, overlap) = (10usize, 3usize);
    let chunks = chunk_text(text, size, overlap).unwrap();
    let chars: Vec<char> = text.chars().collect();
    // Each window starts size - overlap after the previous one.
    for (k, c) in chunks.iter().enumerate() {
        let start = k * (size - overlap);
        let expected: String = chars[start..std::cmp::min(start + size, chars.len())].iter().collect();
        assert_eq!(c, &expected);
        assert!(!c.trim().is_empty());
    }
    let last_start = (chunks.len() - 1) * (size - overlap);
    assert_eq!(last_start + chunks.last().unwrap().chars().count(), chars.len());
}

#[test]
fn sanitize_id_normalizes_names() {
    assert_eq!(sanitize_id("Apple Inc."), "apple_inc_");
    assert_eq!(sanitize_id("  Hello World  "), "hello_world");
    assert_eq!(sanitize_id("DB-Migration"), "db_migration");
    assert_eq!(sanitize_id(""), "");
    assert_eq!(sanitize_id("   "), "");
}

#[test]
fn sanitize_id_keeps_unicode_letters() {
    assert_eq!(sanitize_id("김철수"), "김철수");
    assert_eq!(sanitize_id("Émile Zola"), "émile_zola");
    assert_eq!(sanitize_id("서버 배포"), "서버_배포");
}

#[test]
fn sanitize_id_is_idempotent() {
    for name in ["Apple Inc.", "  Sam Altman ", "C++", "Émile Zola", "DB 마이그레이션", ""] {
        let once = sanitize_id(name);
        assert_eq!(sanitize_id(&once), once);
    }
}

#[test]
fn names_differing_in_punctuation_share_an_id() {
    assert_eq!(sanitize_id("Acme, Inc"), sanitize_id("acme  inc"));
}

#[test]
fn defaults_of_missing_fields() {
    assert_eq!(default_string(), "");
    assert_eq!(default_category(), "General");
}

#[test]
fn repair_strips_json_fence() {
    let raw = "```json\n{\"a\": 1}\n```";
    assert_eq!(clean_and_repair_json(raw), "{\"a\": 1}");
}

#[test]
fn repair_strips_bare_fence() {
    let raw = "Here it is:\n```\n{\"a\": 1}\n```\nDone.";
    assert_eq!(clean_and_repair_json(raw), "{\"a\": 1}");
}

#[test]
fn repair_removes_trailing_commas() {
    let raw = "{\"a\": [1, 2, ], }";
    assert_eq!(clean_and_repair_json(raw), "{\"a\": [1, 2 ] }");
}

#[test]
fn repair_removes_empty_key_artifacts() {
    let raw = "{\"\": \"x\", \"b\": 1}";
    assert_eq!(clean_and_repair_json(raw), "{ \"b\": 1}");
}

#[test]
fn repair_closes_truncated_object() {
    let raw = "{\"entities\": [{\"name\": \"A\"}, {\"name\": \"B\"";
    let fixed = clean_and_repair_json(raw);
    assert_eq!(fixed, "{\"entities\": [{\"name\": \"A\"}, {\"name\": \"B\"]}}");
    assert!(balanced(&fixed));
}

#[test]
fn repair_drops_trailing_comma_before_closing() {
    assert_eq!(clean_and_repair_json("{\"a\": [1, 2,"), "{\"a\": [1, 2]}");
}

#[test]
fn repair_balances_any_number_of_missing_closers() {
    let full = "{\"a\": {\"b\": [{\"c\": [1, 2]}]}}";
    // Drop 1..=5 closers from the end, each cut leaving text that ends in no brace.
    for cut in 1..=5 {
        let truncated = &full[..full.len() - cut];
        if truncated.ends_with('}') {
            continue;
        }
        let fixed = clean_and_repair_json(truncated);
        assert!(balanced(&fixed), "{} -> {}", truncated, fixed);
    }
}

#[test]
fn repair_keeps_valid_json() {
    let raw = "{\"entities\": [], \"relations\": []}";
    assert_eq!(clean_and_repair_json(raw), raw);
}

#[test]
fn repair_of_text_without_braces_forces_a_brace() {
    assert_eq!(clean_and_repair_json("[1, 2"), "[1, 2]}");
}

#[test]
fn close_truncated_leaves_text_ending_in_brace() {
    assert_eq!(close_truncated_json("{\"a\": {\"b\": 1}"), "{\"a\": {\"b\": 1}");
}

#[test]
fn close_truncated_appends_brackets_then_braces() {
    assert_eq!(close_truncated_json("{\"a\": [{\"b\": [1"), "{\"a\": [{\"b\": [1]]}}");
}

#[test]
fn clean_json_response_closes_relations_array() {
    assert_eq!(clean_json_response("{\"a\": [1]"), "{\"a\": [1]}");
    assert_eq!(
        clean_json_response("{\"relations\": [{\"head\": \"A"),
        "{\"relations\": [{\"head\": \"A\"}]}"
    );
    assert_eq!(clean_json_response("```json\n{\"a\": 1}\n```"), "{\"a\": 1}");
    assert_eq!(clean_json_response("{\"a\": [1]},"), "{\"a\": [1]}");
}

#[test]
fn rig_docs_number_the_parts() {
    let text: String = "abcdefghij".repeat(250);
    let docs = rig_docs("a.pdf", &text);
    // Windows start at 0, 1800 and end at 2500.
    assert_eq!(docs.len(), 2);
    assert_eq!(docs[0].id, "a.pdf_part_0");
    assert_eq!(docs[1].id, "a.pdf_part_1");
    assert_eq!(docs[0].content.chars().count(), 2000);
    assert_eq!(docs[1].content, text[1800..].to_string());
    assert!(rig_docs("b.pdf", "   ").is_empty());
}

#[test]
fn repair_empty_key_value_does_not_cross_a_line_break() {
    let raw = "{\"\": \"a\nb\", \"c\": 1}";
    assert_eq!(clean_and_repair_json(raw), raw);
}

#[test]
fn repair_removes_comma_before_closer_across_lines() {
    assert_eq!(clean_and_repair_json("{\"a\": [1,\n]\n}"), "{\"a\": [1\n]\n}");
    assert_eq!(clean_and_repair_json("{\"a\": \"x,y\", \"b\": [1, 2]}"), "{\"a\": \"x,y\", \"b\": [1, 2]}");
}

#[test]
fn repair_removes_every_empty_key_with_its_comma() {
    assert_eq!(clean_and_repair_json("{\"\": \"x\", \"\": \"y\",\"k\": 1}"), "{\"k\": 1}");
}
