//! The graph-construction stage: links chunks that are not yet processed to
//! the entities they name, then marks them processed, so that a second run
//! over the same store writes nothing.

use vstd::prelude::*;
use crate::text::{trim, chars_of, string_of, trim_chars};
use crate::canonical::{canonical_id, sanitize_id};
use crate::models::{string_views, LlmEntityView, LlmRelationView, LlmExtractionResult, LlmExtractionView};
use crate::graph::{
    ENTITY_TABLE,
    RecordId,
    RecordIdView,
    ChunkMeta,
    ChunkMetaView,
    NodeData,
    EntityNode,
    NodeDataView,
    NodeView,
    EdgeKind,
    EdgeView,
    GraphView,
    GraphStore,
    has_node,
    index_of,
    wf,
    upserted,
    related,
    marked_processed,
    named_entity,
    placeholder_entity,
    with_processed,
    lemma_upserted_wf,
};

verus! {

/// Category of an entity taken from a chunk's tags or keywords.
pub const KEYWORD_CATEGORY: &'static str = "Keyword";

/// Start of the description of an entity taken from a chunk's tags or keywords.
pub const KEYWORD_DESCRIPTION: &'static str = "Extracted keyword: ";

/// The id of the entity that a name stands for.
pub open spec fn entity_key(name: Seq<char>) -> RecordIdView {
    RecordIdView { table: ENTITY_TABLE@, key: canonical_id(name) }
}

/// The entity node made from a chunk's tag or keyword.
pub open spec fn keyword_entity(t: Seq<char>) -> NodeView {
    NodeView {
        id: entity_key(t),
        data: NodeDataView::Entity {
            name: t,
            category: KEYWORD_CATEGORY@,
            description: KEYWORD_DESCRIPTION@ + t,
        },
    }
}

/// The edge saying that a chunk mentions the entity of this name.
pub open spec fn mention(chunk: RecordIdView, name: Seq<char>) -> EdgeView {
    EdgeView {
        kind: EdgeKind::Mentions,
        from: chunk,
        to: entity_key(name),
        relation: Seq::empty(),
        reason: Seq::empty(),
    }
}

/// The trimmed items, without the empty ones and without repeats, in order of
/// first appearance, after those in `acc`.
pub open spec fn distinct_trimmed(acc: Seq<Seq<char>>, items: Seq<Seq<char>>) -> Seq<Seq<char>>
    decreases items.len(),
{
    if items.len() == 0 {
        acc
    } else {
        let t = trim(items[0]);
        distinct_trimmed(
            if t.len() == 0 || acc.contains(t) {
                acc
            } else {
                acc.push(t)
            },
            items.drop_first(),
        )
    }
}

/// The topics of a chunk: its tags, then its keywords, trimmed, non-empty, distinct.
pub open spec fn topics(m: ChunkMetaView) -> Seq<Seq<char>> {
    distinct_trimmed(Seq::empty(), m.tags + m.keywords)
}

/// `g` after each topic's entity is upserted and the chunk linked to it, in order.
pub open spec fn linked_topics(g: GraphView, chunk: RecordIdView, ts: Seq<Seq<char>>) -> GraphView
    decreases ts.len(),
{
    if ts.len() == 0 {
        g
    } else {
        linked_topics(
            related(upserted(g, keyword_entity(ts[0])), mention(chunk, ts[0])),
            chunk,
            ts.drop_first(),
        )
    }
}

/// The metadata of the chunk with this id; none is found for another kind of node.
pub open spec fn chunk_meta_of(g: GraphView, id: RecordIdView) -> Option<ChunkMetaView> {
    if has_node(g, id) {
        match g.nodes[index_of(g, id)].data {
            NodeDataView::Chunk { meta, .. } => Some(meta),
            _ => None,
        }
    } else {
        None
    }
}

/// `g` after one chunk is linked to its topics and marked processed.
pub open spec fn linked_chunk(g: GraphView, id: RecordIdView) -> GraphView {
    match chunk_meta_of(g, id) {
        Some(m) => marked_processed(linked_topics(g, id, topics(m)), id),
        None => g,
    }
}

/// `g` after each chunk in turn is linked.
pub open spec fn linked_chunks(g: GraphView, ids: Seq<RecordIdView>) -> GraphView
    decreases ids.len(),
{
    if ids.len() == 0 {
        g
    } else {
        linked_chunks(linked_chunk(g, ids[0]), ids.drop_first())
    }
}

/// A chunk node that is not yet processed.
pub open spec fn is_pending(n: NodeView) -> bool {
    match n.data {
        NodeDataView::Chunk { meta, .. } => !meta.processed,
        _ => false,
    }
}

/// The ids of the chunks not yet processed, in store order.
pub open spec fn pending_of(nodes: Seq<NodeView>) -> Seq<RecordIdView>
    decreases nodes.len(),
{
    if nodes.len() == 0 {
        Seq::empty()
    } else {
        pending_of(nodes.drop_last()) + if is_pending(nodes.last()) {
            seq![nodes.last().id]
        } else {
            Seq::empty()
        }
    }
}

pub open spec fn pending(g: GraphView) -> Seq<RecordIdView> {
    pending_of(g.nodes)
}

/// The chunks one run of the stage takes: the first `limit` pending ones.
pub open spec fn batch(g: GraphView, limit: nat) -> Seq<RecordIdView> {
    if pending(g).len() <= limit {
        pending(g)
    } else {
        pending(g).take(limit as int)
    }
}

/// What one run of the keyword strategy of the stage leaves.
pub open spec fn constructed(g: GraphView, limit: nat) -> GraphView {
    linked_chunks(g, batch(g, limit))
}

fn trim_string(s: &String) -> (r: Vec<char>)
    ensures
        r@ == trim(s@),
{
    let v = chars_of(s.as_str());
    trim_chars(&v)
}

fn contains_text(acc: &Vec<String>, t: &String) -> (r: bool)
    ensures
        r == string_views(acc@).contains(t@),
{
    let mut i: usize = 0;
    while i < acc.len()
        invariant
            i <= acc@.len(),
            forall|j: int| 0 <= j < i ==> acc@[j]@ != t@,
        decreases acc.len() - i,
    {
        if acc[i] == *t {
            assert(string_views(acc@)[i as int] == t@);
            return true;
        }
        i = i + 1;
    }
    assert forall|j: int| 0 <= j < string_views(acc@).len() implies string_views(acc@)[j] != t@ by {
        assert(string_views(acc@)[j] == acc@[j]@);
    }
    false
}

/// Adds the trimmed `item` to `acc` unless it is empty or there already.
fn add_topic(acc: &mut Vec<String>, item: &String)
    ensures
        string_views(final(acc)@) == ({
            let t = trim(item@);
            if t.len() == 0 || string_views(old(acc)@).contains(t) {
                string_views(old(acc)@)
            } else {
                string_views(old(acc)@).push(t)
            }
        }),
{
    let t = trim_string(item);
    if t.len() == 0 {
        return;
    }
    let s = string_of(t.as_slice());
    if contains_text(acc, &s) {
        return;
    }
    let ghost before = acc@;
    acc.push(s);
    assert(string_views(acc@) =~= string_views(before).push(t@));
}

/// The topics of a chunk: its tags, then its keywords, trimmed, non-empty
/// and without repeats.
pub fn chunk_topics(meta: &ChunkMeta) -> (r: Vec<String>)
    ensures
        string_views(r@) == topics(meta@),
{
    let ghost tags = string_views(meta.tags@);
    let ghost kws = string_views(meta.keywords@);
    let mut acc: Vec<String> = Vec::new();
    let mut i: usize = 0;
    assert(tags.skip(0) =~= tags);
    assert(string_views(acc@) =~= Seq::<Seq<char>>::empty());
    while i < meta.tags.len()
        invariant
            tags == string_views(meta.tags@),
            kws == string_views(meta.keywords@),
            i <= tags.len(),
            distinct_trimmed(string_views(acc@), tags.skip(i as int) + kws) == topics(meta@),
        decreases meta.tags.len() - i,
    {
        assert((tags.skip(i as int) + kws).drop_first() =~= tags.skip(i + 1) + kws);
        assert((tags.skip(i as int) + kws)[0] == meta.tags@[i as int]@);
        add_topic(&mut acc, &meta.tags[i]);
        i = i + 1;
    }
    assert(tags.skip(i as int) + kws =~= kws);
    let mut j: usize = 0;
    assert(kws.skip(0) =~= kws);
    while j < meta.keywords.len()
        invariant
            kws == string_views(meta.keywords@),
            j <= kws.len(),
            distinct_trimmed(string_views(acc@), kws.skip(j as int)) == topics(meta@),
        decreases meta.keywords.len() - j,
    {
        assert(kws.skip(j as int).drop_first() =~= kws.skip(j + 1));
        assert(kws.skip(j as int)[0] == meta.keywords@[j as int]@);
        add_topic(&mut acc, &meta.keywords[j]);
        j = j + 1;
    }
    assert(kws.skip(j as int).len() == 0);
    acc
}

/// The id of the entity that `name` stands for.
pub fn entity_id(name: &str) -> (r: RecordId)
    ensures
        r@ == entity_key(name@),
{
    RecordId { table: String::from_str(ENTITY_TABLE), key: sanitize_id(name) }
}

/// Upserts the entity of each topic and links the chunk to it, in order.
fn link_topics(store: &mut GraphStore, chunk: &RecordId, ts: &Vec<String>)
    requires
        wf(old(store)@),
    ensures
        wf(final(store)@),
        final(store)@ == linked_topics(old(store)@, chunk@, string_views(ts@)),
{
    let ghost g0 = store@;
    let ghost all = string_views(ts@);
    let mut i: usize = 0;
    assert(all.skip(0) =~= all);
    while i < ts.len()
        invariant
            all == string_views(ts@),
            i <= all.len(),
            wf(store@),
            linked_topics(store@, chunk@, all.skip(i as int)) == linked_topics(g0, chunk@, all),
        decreases ts.len() - i,
    {
        let t = &ts[i];
        assert(all.skip(i as int)[0] == t@);
        assert(all.skip(i as int).drop_first() =~= all.skip(i + 1));
        let id = entity_id(t.as_str());
        let mut description = String::from_str(KEYWORD_DESCRIPTION);
        description.append(t.as_str());
        let data = NodeData::Entity(
            EntityNode { name: t.clone(), category: String::from_str(KEYWORD_CATEGORY), description },
        );
        store.upsert_node(id.duplicate(), data);
        store.relate(EdgeKind::Mentions, chunk.duplicate(), id, String::new(), String::new());
        i = i + 1;
    }
    assert(all.skip(i as int).len() == 0);
}

/// The views of a vector of record ids.
pub open spec fn id_views(v: Seq<RecordId>) -> Seq<RecordIdView> {
    v.map_values(|r: RecordId| r@)
}

/// The first `limit` items of `s`, or all of them when there are fewer.
pub open spec fn at_most(s: Seq<RecordIdView>, limit: nat) -> Seq<RecordIdView> {
    if s.len() <= limit {
        s
    } else {
        s.take(limit as int)
    }
}

/// The entity node made from an extracted entity.
pub open spec fn extracted_entity(e: LlmEntityView) -> NodeView {
    NodeView {
        id: entity_key(e.name),
        data: NodeDataView::Entity { name: e.name, category: e.category, description: e.summary },
    }
}

/// `g` after each extracted entity is upserted and the chunk linked to it, in order.
pub open spec fn saved_entities(g: GraphView, chunk: RecordIdView, es: Seq<LlmEntityView>) -> GraphView
    decreases es.len(),
{
    if es.len() == 0 {
        g
    } else {
        saved_entities(
            related(upserted(g, extracted_entity(es[0])), mention(chunk, es[0].name)),
            chunk,
            es.drop_first(),
        )
    }
}

/// The edge of an extracted relation.
pub open spec fn relation_edge(r: LlmRelationView) -> EdgeView {
    EdgeView {
        kind: EdgeKind::RelatedTo,
        from: entity_key(r.head),
        to: entity_key(r.tail),
        relation: r.relation,
        reason: r.reason,
    }
}

/// `g` after, for each relation in order, both ends are named (placeholders
/// where missing) and the edge between them added.
pub open spec fn saved_relations(g: GraphView, rs: Seq<LlmRelationView>) -> GraphView
    decreases rs.len(),
{
    if rs.len() == 0 {
        g
    } else {
        let h = named_entity(
            named_entity(g, entity_key(rs[0].head), rs[0].head),
            entity_key(rs[0].tail),
            rs[0].tail,
        );
        saved_relations(related(h, relation_edge(rs[0])), rs.drop_first())
    }
}

/// `g` after an extraction of a chunk is written: entities, then relations.
pub open spec fn saved_extraction(g: GraphView, chunk: RecordIdView, x: LlmExtractionView) -> GraphView {
    saved_relations(saved_entities(g, chunk, x.entities), x.relations)
}

/// Linking topics adds or replaces entity nodes only: every pending chunk
/// afterwards was there, at the same place, before.
proof fn lemma_linked_topics_pending(g: GraphView, c: RecordIdView, ts: Seq<Seq<char>>)
    requires
        wf(g),
    ensures
        wf(linked_topics(g, c, ts)),
        forall|i: int|
            0 <= i < linked_topics(g, c, ts).nodes.len() && is_pending(
                #[trigger] linked_topics(g, c, ts).nodes[i],
            ) ==> i < g.nodes.len() && linked_topics(g, c, ts).nodes[i] == g.nodes[i],
    decreases ts.len(),
{
    if ts.len() > 0 {
        let n = keyword_entity(ts[0]);
        let g1 = upserted(g, n);
        lemma_upserted_wf(g, n);
        let g2 = related(g1, mention(c, ts[0]));
        lemma_linked_topics_pending(g2, c, ts.drop_first());
        let h = linked_topics(g, c, ts);
        assert forall|i: int| 0 <= i < h.nodes.len() && is_pending(#[trigger] h.nodes[i]) implies i
            < g.nodes.len() && h.nodes[i] == g.nodes[i] by {
            assert(h.nodes[i] == g1.nodes[i]);
            if has_node(g, n.id) {
                if i != index_of(g, n.id) {
                    assert(g1.nodes[i] == g.nodes[i]);
                }
            } else {
                if i < g.nodes.len() {
                    assert(g1.nodes[i] == g.nodes[i]);
                }
            }
        }
    }
}

/// Marking a chunk processed leaves no pending node with its id, and
/// changes no other pending node.
proof fn lemma_marked_pending(g: GraphView, id: RecordIdView)
    requires
        wf(g),
    ensures
        wf(marked_processed(g, id)),
        marked_processed(g, id).nodes.len() == g.nodes.len(),
        forall|i: int|
            0 <= i < g.nodes.len() && is_pending(#[trigger] marked_processed(g, id).nodes[i]) ==> (
            marked_processed(g, id).nodes[i] == g.nodes[i] && g.nodes[i].id != id),
{
    let h = marked_processed(g, id);
    if has_node(g, id) {
        let k = index_of(g, id);
        assert(h.nodes[k].id == g.nodes[k].id);
        assert forall|i: int, j: int|
            0 <= i < h.nodes.len() && 0 <= j < h.nodes.len() && i != j implies (#[trigger] h.nodes[i]).id
            != (#[trigger] h.nodes[j]).id by {
            assert(h.nodes[i].id == g.nodes[i].id);
            assert(h.nodes[j].id == g.nodes[j].id);
        }
        assert forall|i: int| 0 <= i < g.nodes.len() && is_pending(#[trigger] h.nodes[i]) implies (
        h.nodes[i] == g.nodes[i] && g.nodes[i].id != id) by {
            if i == k {
                assert(!is_pending(with_processed(g.nodes[k])));
            } else {
                assert(g.nodes[i].id != g.nodes[k].id);
            }
        }
    } else {
        assert forall|i: int| 0 <= i < g.nodes.len() && is_pending(#[trigger] h.nodes[i]) implies (
        h.nodes[i] == g.nodes[i] && g.nodes[i].id != id) by {
            if g.nodes[i].id == id {
                assert(has_node(g, id));
            }
        }
    }
}

/// After one chunk is linked, every pending chunk was pending before, at the
/// same place, and is another chunk.
proof fn lemma_linked_chunk_pending(g: GraphView, id: RecordIdView)
    requires
        wf(g),
    ensures
        wf(linked_chunk(g, id)),
        forall|i: int|
            0 <= i < linked_chunk(g, id).nodes.len() && is_pending(
                #[trigger] linked_chunk(g, id).nodes[i],
            ) ==> i < g.nodes.len() && linked_chunk(g, id).nodes[i] == g.nodes[i] && g.nodes[i].id
                != id,
{
    let r = linked_chunk(g, id);
    match chunk_meta_of(g, id) {
        Some(m) => {
            let h = linked_topics(g, id, topics(m));
            lemma_linked_topics_pending(g, id, topics(m));
            lemma_marked_pending(h, id);
            assert forall|i: int| 0 <= i < r.nodes.len() && is_pending(#[trigger] r.nodes[i]) implies i
                < g.nodes.len() && r.nodes[i] == g.nodes[i] && g.nodes[i].id != id by {
                assert(is_pending(h.nodes[i]));
            }
        },
        None => {
            assert forall|i: int| 0 <= i < r.nodes.len() && is_pending(#[trigger] r.nodes[i]) implies i
                < g.nodes.len() && r.nodes[i] == g.nodes[i] && g.nodes[i].id != id by {
                if g.nodes[i].id == id {
                    assert(has_node(g, id));
                    let k = index_of(g, id);
                    if k != i {
                        assert(g.nodes[k].id != g.nodes[i].id);
                    }
                }
            }
        },
    }
}

/// Linking chunks whose ids include every pending chunk leaves none pending.
proof fn lemma_linked_chunks_clear(g: GraphView, ids: Seq<RecordIdView>)
    requires
        wf(g),
        forall|i: int| 0 <= i < g.nodes.len() && is_pending(#[trigger] g.nodes[i]) ==> ids.contains(
            g.nodes[i].id,
        ),
    ensures
        forall|i: int|
            0 <= i < linked_chunks(g, ids).nodes.len() ==> !is_pending(
                #[trigger] linked_chunks(g, ids).nodes[i],
            ),
    decreases ids.len(),
{
    if ids.len() > 0 {
        let g1 = linked_chunk(g, ids[0]);
        lemma_linked_chunk_pending(g, ids[0]);
        assert forall|i: int| 0 <= i < g1.nodes.len() && is_pending(#[trigger] g1.nodes[i]) implies ids.drop_first().contains(
            g1.nodes[i].id,
        ) by {
            let x = g.nodes[i].id;
            assert(ids.contains(x));
            let j = choose|j: int| 0 <= j < ids.len() && ids[j] == x;
            assert(j != 0);
            assert(ids.drop_first()[j - 1] == x);
        }
        lemma_linked_chunks_clear(g1, ids.drop_first());
        assert(linked_chunks(g, ids) == linked_chunks(g1, ids.drop_first()));
    } else {
        assert(linked_chunks(g, ids) == g);
        assert forall|i: int| 0 <= i < g.nodes.len() implies !is_pending(#[trigger] g.nodes[i]) by {
            if is_pending(g.nodes[i]) {
                assert(ids.contains(g.nodes[i].id));
            }
        }
    }
}

proof fn lemma_pending_of_contains(nodes: Seq<NodeView>)
    ensures
        forall|i: int| 0 <= i < nodes.len() && is_pending(#[trigger] nodes[i]) ==> pending_of(
            nodes,
        ).contains(nodes[i].id),
    decreases nodes.len(),
{
    if nodes.len() > 0 {
        let p = pending_of(nodes.drop_last());
        lemma_pending_of_contains(nodes.drop_last());
        assert forall|i: int| 0 <= i < nodes.len() && is_pending(#[trigger] nodes[i]) implies pending_of(
            nodes,
        ).contains(nodes[i].id) by {
            if i < nodes.len() - 1 {
                assert(nodes.drop_last()[i] == nodes[i]);
                let j = choose|j: int| 0 <= j < p.len() && p[j] == nodes[i].id;
                assert(pending_of(nodes)[j] == p[j]);
            } else {
                assert(pending_of(nodes)[p.len() as int] == nodes[i].id);
            }
        }
    }
}

proof fn lemma_pending_of_none(nodes: Seq<NodeView>)
    requires
        forall|i: int| 0 <= i < nodes.len() ==> !is_pending(#[trigger] nodes[i]),
    ensures
        pending_of(nodes).len() == 0,
    decreases nodes.len(),
{
    if nodes.len() > 0 {
        assert forall|i: int| 0 <= i < nodes.drop_last().len() implies !is_pending(
            #[trigger] nodes.drop_last()[i],
        ) by {
            assert(nodes.drop_last()[i] == nodes[i]);
        }
        lemma_pending_of_none(nodes.drop_last());
        assert(!is_pending(nodes[nodes.len() - 1]));
    }
}

/// A run of the stage on a store with no chunk pending writes nothing.
pub proof fn lemma_construct_graph_noop(g: GraphView, limit: nat)
    requires
        pending(g).len() == 0,
    ensures
        constructed(g, limit) == g,
{
}

/// Running the stage twice with no new chunks: when one run takes every
/// pending chunk (there are no more than `limit`), a second run writes
/// nothing.
pub proof fn lemma_construct_graph_twice(g: GraphView, limit: nat)
    requires
        wf(g),
        pending(g).len() <= limit,
    ensures
        constructed(constructed(g, limit), limit) == constructed(g, limit),
{
    let h = constructed(g, limit);
    lemma_pending_of_contains(g.nodes);
    lemma_linked_chunks_clear(g, pending(g));
    lemma_pending_of_none(h.nodes);
    lemma_construct_graph_noop(h, limit);
}

/// The node with id `id` is stored, is `v`, and is the only one with that id.
pub open spec fn holds_node(g: GraphView, id: RecordIdView, v: NodeView) -> bool {
    &&& has_node(g, id)
    &&& g.nodes[index_of(g, id)] == v
    &&& forall|i: int| 0 <= i < g.nodes.len() && (#[trigger] g.nodes[i]).id == id ==> i == index_of(g, id)
}

proof fn lemma_wf_unique(g: GraphView, id: RecordIdView, k: int)
    requires
        wf(g),
        0 <= k < g.nodes.len(),
        g.nodes[k].id == id,
    ensures
        has_node(g, id),
        index_of(g, id) == k,
        forall|i: int| 0 <= i < g.nodes.len() && (#[trigger] g.nodes[i]).id == id ==> i == k,
{
    assert(has_node(g, id));
    assert forall|i: int| 0 <= i < g.nodes.len() && (#[trigger] g.nodes[i]).id == id implies i == k by {
        if i != k {
            assert(g.nodes[i].id != g.nodes[k].id);
        }
    }
}

/// Upserting another id leaves the node with `id` as it was.
proof fn lemma_upsert_other(g: GraphView, n: NodeView, id: RecordIdView, v: NodeView)
    requires
        wf(g),
        n.id != id,
        holds_node(g, id, v),
    ensures
        wf(upserted(g, n)),
        holds_node(upserted(g, n), id, v),
{
    lemma_upserted_wf(g, n);
    let h = upserted(g, n);
    let k = index_of(g, id);
    if has_node(g, n.id) {
        assert(g.nodes[index_of(g, n.id)].id == n.id);
    }
    assert(h.nodes[k] == g.nodes[k]);
    lemma_wf_unique(h, id, k);
}

/// Renaming (or adding a placeholder for) another id leaves the node with
/// `id` as it was, and keeps ids unique.
proof fn lemma_named_other(g: GraphView, other: RecordIdView, name: Seq<char>, id: RecordIdView, v: NodeView)
    requires
        wf(g),
        other != id,
        holds_node(g, id, v),
    ensures
        wf(named_entity(g, other, name)),
        holds_node(named_entity(g, other, name), id, v),
{
    let h = named_entity(g, other, name);
    let k = index_of(g, id);
    if has_node(g, other) {
        let o = index_of(g, other);
        assert(g.nodes[o].id == other);
        assert(forall|i: int| 0 <= i < h.nodes.len() ==> (#[trigger] h.nodes[i]).id == g.nodes[i].id);
    } else {
        assert(h.nodes == g.nodes.push(placeholder_entity(other, name)));
        assert forall|i: int| 0 <= i < g.nodes.len() implies (#[trigger] g.nodes[i]).id != other by {
            if g.nodes[i].id == other {
                assert(has_node(g, other));
            }
        }
    }
    assert(wf(h));
    assert(h.nodes[k] == g.nodes[k]);
    lemma_wf_unique(h, id, k);
}

/// Relations that name neither end `id` leave the node with `id` as it was.
proof fn lemma_relations_keep(g: GraphView, rs: Seq<LlmRelationView>, id: RecordIdView, v: NodeView)
    requires
        wf(g),
        holds_node(g, id, v),
        forall|k: int|
            0 <= k < rs.len() ==> entity_key((#[trigger] rs[k]).head) != id && entity_key(rs[k].tail)
                != id,
    ensures
        wf(saved_relations(g, rs)),
        holds_node(saved_relations(g, rs), id, v),
    decreases rs.len(),
{
    if rs.len() > 0 {
        let r = rs[0];
        assert(entity_key(r.head) != id && entity_key(r.tail) != id);
        lemma_named_other(g, entity_key(r.head), r.head, id, v);
        let g1 = named_entity(g, entity_key(r.head), r.head);
        lemma_named_other(g1, entity_key(r.tail), r.tail, id, v);
        let g2 = named_entity(g1, entity_key(r.tail), r.tail);
        let g3 = related(g2, relation_edge(r));
        assert(g3.nodes == g2.nodes);
        assert forall|k: int| 0 <= k < rs.drop_first().len() implies entity_key(
            (#[trigger] rs.drop_first()[k]).head,
        ) != id && entity_key(rs.drop_first()[k].tail) != id by {
            assert(rs.drop_first()[k] == rs[k + 1]);
        }
        lemma_relations_keep(g3, rs.drop_first(), id, v);
    }
}

/// Saving entities none of which has id `id` leaves the node with `id` as it was.
proof fn lemma_entities_keep(g: GraphView, c: RecordIdView, es: Seq<LlmEntityView>, id: RecordIdView, v: NodeView)
    requires
        wf(g),
        holds_node(g, id, v),
        forall|k: int| 0 <= k < es.len() ==> entity_key((#[trigger] es[k]).name) != id,
    ensures
        wf(saved_entities(g, c, es)),
        holds_node(saved_entities(g, c, es), id, v),
    decreases es.len(),
{
    if es.len() > 0 {
        assert(entity_key(es[0].name) != id);
        lemma_upsert_other(g, extracted_entity(es[0]), id, v);
        let g1 = related(upserted(g, extracted_entity(es[0])), mention(c, es[0].name));
        assert forall|k: int| 0 <= k < es.drop_first().len() implies entity_key(
            (#[trigger] es.drop_first()[k]).name,
        ) != id by {
            assert(es.drop_first()[k] == es[k + 1]);
        }
        lemma_entities_keep(g1, c, es.drop_first(), id, v);
    }
}

/// Saving entities where `es[j]` is the last with its id leaves exactly one
/// node with that id, holding that entity's content.
proof fn lemma_entities_latest(g: GraphView, c: RecordIdView, es: Seq<LlmEntityView>, j: int)
    requires
        wf(g),
        0 <= j < es.len(),
        forall|k: int| j < k < es.len() ==> entity_key((#[trigger] es[k]).name) != entity_key(es[j].name),
    ensures
        wf(saved_entities(g, c, es)),
        holds_node(saved_entities(g, c, es), entity_key(es[j].name), extracted_entity(es[j])),
    decreases es.len(),
{
    let n = extracted_entity(es[0]);
    lemma_upserted_wf(g, n);
    let g1 = related(upserted(g, n), mention(c, es[0].name));
    assert(g1.nodes == upserted(g, n).nodes);
    let rest = es.drop_first();
    if j == 0 {
        lemma_wf_unique(g1, n.id, index_of(upserted(g, n), n.id));
        assert forall|k: int| 0 <= k < rest.len() implies entity_key((#[trigger] rest[k]).name) != n.id by {
            assert(rest[k] == es[k + 1]);
        }
        lemma_entities_keep(g1, c, rest, n.id, n);
    } else {
        assert(rest[j - 1] == es[j]);
        assert forall|k: int| j - 1 < k < rest.len() implies entity_key((#[trigger] rest[k]).name)
            != entity_key(rest[j - 1].name) by {
            assert(rest[k] == es[k + 1]);
        }
        lemma_entities_latest(g1, c, rest, j - 1);
    }
}

/// Upserts in one save keep one node per id, with the latest content: when
/// `data.entities[j]` is the last extracted entity with its canonical id, and
/// no relation names that id as an end, the store afterwards holds exactly
/// one node with that id, and it carries that entity's name, category and
/// summary.
pub proof fn lemma_save_keeps_latest(g: GraphView, chunk: RecordIdView, data: LlmExtractionView, j: int)
    requires
        wf(g),
        0 <= j < data.entities.len(),
        forall|k: int|
            j < k < data.entities.len() ==> entity_key((#[trigger] data.entities[k]).name)
                != entity_key(data.entities[j].name),
        forall|k: int|
            0 <= k < data.relations.len() ==> entity_key((#[trigger] data.relations[k]).head)
                != entity_key(data.entities[j].name) && entity_key(data.relations[k].tail)
                != entity_key(data.entities[j].name),
    ensures
        holds_node(
            saved_extraction(g, chunk, data),
            entity_key(data.entities[j].name),
            extracted_entity(data.entities[j]),
        ),
{
    lemma_entities_latest(g, chunk, data.entities, j);
    lemma_relations_keep(
        saved_entities(g, chunk, data.entities),
        data.relations,
        entity_key(data.entities[j].name),
        extracted_entity(data.entities[j]),
    );
}

/// Saving twice: an entity saved earlier and saved again later, under the
/// same canonical id, is stored once, with the later content.
pub proof fn lemma_save_twice_keeps_latest(
    g: GraphView,
    c1: RecordIdView,
    d1: LlmExtractionView,
    c2: RecordIdView,
    d2: LlmExtractionView,
    j: int,
)
    requires
        wf(g),
        0 <= j < d2.entities.len(),
        forall|k: int|
            j < k < d2.entities.len() ==> entity_key((#[trigger] d2.entities[k]).name)
                != entity_key(d2.entities[j].name),
        forall|k: int|
            0 <= k < d2.relations.len() ==> entity_key((#[trigger] d2.relations[k]).head)
                != entity_key(d2.entities[j].name) && entity_key(d2.relations[k].tail)
                != entity_key(d2.entities[j].name),
    ensures
        holds_node(
            saved_extraction(saved_extraction(g, c1, d1), c2, d2),
            entity_key(d2.entities[j].name),
            extracted_entity(d2.entities[j]),
        ),
{
    lemma_saved_wf(g, c1, d1);
    lemma_save_keeps_latest(saved_extraction(g, c1, d1), c2, d2, j);
}

proof fn lemma_saved_entities_wf(g: GraphView, c: RecordIdView, es: Seq<LlmEntityView>)
    requires
        wf(g),
    ensures
        wf(saved_entities(g, c, es)),
    decreases es.len(),
{
    if es.len() > 0 {
        lemma_upserted_wf(g, extracted_entity(es[0]));
        lemma_saved_entities_wf(
            related(upserted(g, extracted_entity(es[0])), mention(c, es[0].name)),
            c,
            es.drop_first(),
        );
    }
}

proof fn lemma_named_wf(g: GraphView, id: RecordIdView, name: Seq<char>)
    requires
        wf(g),
    ensures
        wf(named_entity(g, id, name)),
{
    let h = named_entity(g, id, name);
    if has_node(g, id) {
        assert(g.nodes[index_of(g, id)].id == id);
        assert(forall|i: int| 0 <= i < h.nodes.len() ==> (#[trigger] h.nodes[i]).id == g.nodes[i].id);
    } else {
        assert forall|i: int| 0 <= i < g.nodes.len() implies (#[trigger] g.nodes[i]).id != id by {
            if g.nodes[i].id == id {
                assert(has_node(g, id));
            }
        }
        assert(h.nodes == g.nodes.push(placeholder_entity(id, name)));
    }
}

proof fn lemma_saved_relations_wf(g: GraphView, rs: Seq<LlmRelationView>)
    requires
        wf(g),
    ensures
        wf(saved_relations(g, rs)),
    decreases rs.len(),
{
    if rs.len() > 0 {
        let r = rs[0];
        lemma_named_wf(g, entity_key(r.head), r.head);
        let g1 = named_entity(g, entity_key(r.head), r.head);
        lemma_named_wf(g1, entity_key(r.tail), r.tail);
        let g2 = named_entity(g1, entity_key(r.tail), r.tail);
        lemma_saved_relations_wf(related(g2, relation_edge(r)), rs.drop_first());
    }
}

proof fn lemma_saved_wf(g: GraphView, c: RecordIdView, d: LlmExtractionView)
    requires
        wf(g),
    ensures
        wf(saved_extraction(g, c, d)),
{
    lemma_saved_entities_wf(g, c, d.entities);
    lemma_saved_relations_wf(saved_entities(g, c, d.entities), d.relations);
}

/// The ids of the chunks that one run of the stage takes: the first `limit`
/// chunks not yet processed, in store order.
pub fn pending_chunks(store: &GraphStore, limit: usize) -> (r: Vec<RecordId>)
    ensures
        id_views(r@) == batch(store@, limit as nat),
{
    let ghost nodes = store@.nodes;
    let mut out: Vec<RecordId> = Vec::new();
    let mut i: usize = 0;
    let n = store.node_count();
    assert(id_views(out@) =~= at_most(pending_of(nodes.take(0)), limit as nat));
    while i < n
        invariant
            nodes == store@.nodes,
            n == nodes.len(),
            i <= n,
            id_views(out@) == at_most(pending_of(nodes.take(i as int)), limit as nat),
        decreases n - i,
    {
        let node = store.node(i);
        let p = match &node.data {
            NodeData::Chunk(c) => !c.metadata.processed,
            _ => false,
        };
        assert(nodes.take(i + 1).drop_last() =~= nodes.take(i as int));
        assert(nodes.take(i + 1).last() == nodes[i as int]);
        let ghost prev = pending_of(nodes.take(i as int));
        if p && out.len() < limit {
            let ghost before = out@;
            out.push(node.id.duplicate());
            assert(id_views(out@) =~= id_views(before).push(nodes[i as int].id));
            assert(pending_of(nodes.take(i + 1)) =~= prev.push(nodes[i as int].id));
        } else if p {
            assert(pending_of(nodes.take(i + 1)) =~= prev.push(nodes[i as int].id));
            assert(at_most(prev.push(nodes[i as int].id), limit as nat) =~= at_most(
                prev,
                limit as nat,
            ));
        } else {
            assert(pending_of(nodes.take(i + 1)) =~= prev);
        }
        i = i + 1;
    }
    assert(nodes.take(n as int) =~= nodes);
    out
}

/// Links one chunk to the entities of its topics and marks it processed.
fn link_chunk(store: &mut GraphStore, id: &RecordId)
    requires
        wf(old(store)@),
    ensures
        wf(final(store)@),
        final(store)@ == linked_chunk(old(store)@, id@),
{
    match store.find(id) {
        None => {},
        Some(i) => {
            let ts = match &store.node(i).data {
                NodeData::Chunk(c) => Some(chunk_topics(&c.metadata)),
                _ => None,
            };
            match ts {
                Some(ts) => {
                    link_topics(store, id, &ts);
                    store.mark_processed(id);
                },
                None => {},
            }
        },
    }
}

/// One run of the keyword strategy of the graph stage: takes the first
/// `limit` chunks not yet processed and, for each, upserts an entity for each
/// of its topics (tags, then keywords), links the chunk to it, and marks the
/// chunk processed. Returns how many chunks it took.
pub fn construct_graph(store: &mut GraphStore, limit: usize) -> (r: usize)
    requires
        wf(old(store)@),
    ensures
        wf(final(store)@),
        r == batch(old(store)@, limit as nat).len(),
        final(store)@ == constructed(old(store)@, limit as nat),
{
    let ghost g0 = store@;
    let ids = pending_chunks(store, limit);
    let ghost all = id_views(ids@);
    let mut k: usize = 0;
    assert(all.skip(0) =~= all);
    while k < ids.len()
        invariant
            all == id_views(ids@),
            all == batch(g0, limit as nat),
            k <= all.len(),
            wf(store@),
            linked_chunks(store@, all.skip(k as int)) == linked_chunks(g0, all),
        decreases ids.len() - k,
    {
        assert(all.skip(k as int)[0] == ids@[k as int]@);
        assert(all.skip(k as int).drop_first() =~= all.skip(k + 1));
        link_chunk(store, &ids[k]);
        k = k + 1;
    }
    assert(all.skip(k as int).len() == 0);
    ids.len()
}

/// Writes what was extracted from a chunk: each entity is upserted under its
/// canonical id and the chunk linked to it; for each relation both ends are
/// named (placeholders where missing) and a `RelatedTo` edge added with the
/// relation and its reason.
pub fn save_graph_data(store: &mut GraphStore, chunk_id: &RecordId, data: &LlmExtractionResult)
    requires
        wf(old(store)@),
    ensures
        wf(final(store)@),
        final(store)@ == saved_extraction(old(store)@, chunk_id@, data@),
{
    let ghost g0 = store@;
    let ghost es = data@.entities;
    let mut i: usize = 0;
    assert(es.skip(0) =~= es);
    while i < data.entities.len()
        invariant
            es == data@.entities,
            i <= es.len(),
            wf(store@),
            saved_entities(store@, chunk_id@, es.skip(i as int)) == saved_entities(
                g0,
                chunk_id@,
                es,
            ),
        decreases data.entities.len() - i,
    {
        let e = &data.entities[i];
        assert(es.skip(i as int)[0] == e@);
        assert(es.skip(i as int).drop_first() =~= es.skip(i + 1));
        let id = entity_id(e.name.as_str());
        let node = NodeData::Entity(
            EntityNode {
                name: e.name.clone(),
                category: e.category.clone(),
                description: e.summary.clone(),
            },
        );
        store.upsert_node(id.duplicate(), node);
        store.relate(EdgeKind::Mentions, chunk_id.duplicate(), id, String::new(), String::new());
        i = i + 1;
    }
    assert(es.skip(i as int).len() == 0);
    let ghost g1 = store@;
    let ghost rs = data@.relations;
    let mut j: usize = 0;
    assert(rs.skip(0) =~= rs);
    while j < data.relations.len()
        invariant
            rs == data@.relations,
            j <= rs.len(),
            wf(store@),
            saved_relations(store@, rs.skip(j as int)) == saved_relations(g1, rs),
        decreases data.relations.len() - j,
    {
        let r = &data.relations[j];
        assert(rs.skip(j as int)[0] == r@);
        assert(rs.skip(j as int).drop_first() =~= rs.skip(j + 1));
        let head = entity_id(r.head.as_str());
        let tail = entity_id(r.tail.as_str());
        store.name_entity(head.duplicate(), r.head.clone());
        store.name_entity(tail.duplicate(), r.tail.clone());
        store.relate(EdgeKind::RelatedTo, head, tail, r.relation.clone(), r.reason.clone());
        j = j + 1;
    }
    assert(rs.skip(j as int).len() == 0);
}

/// One step of the extraction strategy of the graph stage: writes what was
/// extracted from the chunk, then marks the chunk processed.
pub fn apply_extraction(store: &mut GraphStore, chunk_id: &RecordId, data: &LlmExtractionResult)
    requires
        wf(old(store)@),
    ensures
        wf(final(store)@),
        final(store)@ == marked_processed(
            saved_extraction(old(store)@, chunk_id@, data@),
            chunk_id@,
        ),
{
    save_graph_data(store, chunk_id, data);
    store.mark_processed(chunk_id);
}

} // verus!
