//! Text shown to the user about the graph.

use vstd::prelude::*;
use crate::text::{push_text, same_text, string_of};

verus! {

pub const ENTITY_CLICK: &'static str = "🧠 Entity 클릭\n- id: ";

pub const DOCUMENT_CLICK: &'static str = "📄 Document 클릭\n- id: ";

pub const CHUNK_CLICK: &'static str = "📌 Chunk 클릭\n- id: ";

pub const NODE_CLICK: &'static str = "🔹 Node 클릭\n- id: ";

pub const NAME_LINE: &'static str = "\n- name: ";

pub const CATEGORY_LINE: &'static str = "\n- category: ";

pub const FILENAME_LINE: &'static str = "\n- filename: ";

pub const PAGE_LINE: &'static str = "\n- page: ";

pub const LABEL_LINE: &'static str = "\n- label: ";

pub const UNKNOWN: &'static str = "unknown";

pub const ENTITY_GROUP: &'static str = "entity";

pub const DOCUMENT_GROUP: &'static str = "document";

pub const CHUNK_GROUP: &'static str = "chunk";

/// The message logged when a node of the graph view is clicked: its id and,
/// by group, the entity's name and category (`unknown` without one), the
/// document's file name, the chunk's page label, or the plain label.
pub open spec fn click_message(
    node_id: Seq<char>,
    group: Seq<char>,
    label: Seq<char>,
    info: Option<Seq<char>>,
) -> Seq<char> {
    if group == ENTITY_GROUP@ {
        ENTITY_CLICK@ + node_id + NAME_LINE@ + label + CATEGORY_LINE@ + match info {
            Some(i) => i,
            None => UNKNOWN@,
        }
    } else if group == DOCUMENT_GROUP@ {
        DOCUMENT_CLICK@ + node_id + FILENAME_LINE@ + label
    } else if group == CHUNK_GROUP@ {
        CHUNK_CLICK@ + node_id + PAGE_LINE@ + label
    } else {
        NODE_CLICK@ + node_id + LABEL_LINE@ + label
    }
}

/// The message for a click on a node; see `click_message`.
pub fn log_node_click(node_id: &str, group: &str, label: &str, info: Option<&str>) -> (r: String)
    ensures
        r@ == click_message(
            node_id@,
            group@,
            label@,
            match info {
                Some(i) => Some(i@),
                None => None,
            },
        ),
{
    let mut v: Vec<char> = Vec::new();
    if same_text(group, ENTITY_GROUP) {
        push_text(&mut v, ENTITY_CLICK);
        push_text(&mut v, node_id);
        push_text(&mut v, NAME_LINE);
        push_text(&mut v, label);
        push_text(&mut v, CATEGORY_LINE);
        match info {
            Some(i) => push_text(&mut v, i),
            None => push_text(&mut v, UNKNOWN),
        }
    } else if same_text(group, DOCUMENT_GROUP) {
        push_text(&mut v, DOCUMENT_CLICK);
        push_text(&mut v, node_id);
        push_text(&mut v, FILENAME_LINE);
        push_text(&mut v, label);
    } else if same_text(group, CHUNK_GROUP) {
        push_text(&mut v, CHUNK_CLICK);
        push_text(&mut v, node_id);
        push_text(&mut v, PAGE_LINE);
        push_text(&mut v, label);
    } else {
        push_text(&mut v, NODE_CLICK);
        push_text(&mut v, node_id);
        push_text(&mut v, LABEL_LINE);
        push_text(&mut v, label);
    }
    string_of(v.as_slice())
}

} // verus!
