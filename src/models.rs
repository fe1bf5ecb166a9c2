//! The values that flow through the pipeline: what the model extracts, and
//! what the graph view hands to a renderer.

use vstd::prelude::*;

verus! {

/// The views of a vector of strings.
pub open spec fn string_views(v: Seq<String>) -> Seq<Seq<char>> {
    v.map_values(|s: String| s@)
}

/// The text a missing string field gets.
pub fn default_string() -> (r: String)
    ensures
        r@ == Seq::<char>::empty(),
{
    String::new()
}

/// The category an entity without one gets.
pub fn default_category() -> (r: String)
    ensures
        r@ == "General"@,
{
    String::from_str("General")
}

/// One entity of the graph variant of an extraction.
#[derive(Debug)]
pub struct LlmEntity {
    pub name: String,
    pub category: String,
    pub summary: String,
}

/// One relation `head --relation--> tail` of the graph variant, with the
/// model's justification.
#[derive(Debug)]
pub struct LlmRelation {
    pub head: String,
    pub relation: String,
    pub tail: String,
    pub reason: String,
}

/// The graph variant of an extraction: entities and the relations between them.
#[derive(Debug)]
pub struct LlmExtractionResult {
    pub entities: Vec<LlmEntity>,
    pub relations: Vec<LlmRelation>,
}

/// The analysis variant of an extraction: a title, a one-sentence summary,
/// general tags and the key entities named in the text.
#[derive(Debug)]
pub struct DocSummaryResult {
    pub title: String,
    pub summary: String,
    pub tags: Vec<String>,
    pub keywords: Vec<String>,
}

pub struct LlmEntityView {
    pub name: Seq<char>,
    pub category: Seq<char>,
    pub summary: Seq<char>,
}

pub struct LlmRelationView {
    pub head: Seq<char>,
    pub relation: Seq<char>,
    pub tail: Seq<char>,
    pub reason: Seq<char>,
}

pub struct LlmExtractionView {
    pub entities: Seq<LlmEntityView>,
    pub relations: Seq<LlmRelationView>,
}

impl View for LlmEntity {
    type V = LlmEntityView;

    open spec fn view(&self) -> LlmEntityView {
        LlmEntityView { name: self.name@, category: self.category@, summary: self.summary@ }
    }
}

impl View for LlmRelation {
    type V = LlmRelationView;

    open spec fn view(&self) -> LlmRelationView {
        LlmRelationView {
            head: self.head@,
            relation: self.relation@,
            tail: self.tail@,
            reason: self.reason@,
        }
    }
}

impl View for LlmExtractionResult {
    type V = LlmExtractionView;

    open spec fn view(&self) -> LlmExtractionView {
        LlmExtractionView {
            entities: self.entities@.map_values(|e: LlmEntity| e@),
            relations: self.relations@.map_values(|r: LlmRelation| r@),
        }
    }
}

pub struct DocSummaryView {
    pub title: Seq<char>,
    pub summary: Seq<char>,
    pub tags: Seq<Seq<char>>,
    pub keywords: Seq<Seq<char>>,
}

impl View for DocSummaryResult {
    type V = DocSummaryView;

    open spec fn view(&self) -> DocSummaryView {
        DocSummaryView {
            title: self.title@,
            summary: self.summary@,
            tags: string_views(self.tags@),
            keywords: string_views(self.keywords@),
        }
    }
}

/// A copy of each string.
pub fn clone_strings(v: &Vec<String>) -> (r: Vec<String>)
    ensures
        string_views(r@) == string_views(v@),
{
    let mut r: Vec<String> = Vec::new();
    let mut i: usize = 0;
    while i < v.len()
        invariant
            i <= v@.len(),
            string_views(r@) == string_views(v@).take(i as int),
        decreases v.len() - i,
    {
        let ghost before = r@;
        r.push(v[i].clone());
        assert(string_views(r@) =~= string_views(v@).take(i + 1)) by {
            assert(string_views(r@) =~= string_views(before).push(v@[i as int]@));
        }
        i = i + 1;
    }
    assert(string_views(v@).take(i as int) =~= string_views(v@));
    r
}

impl LlmExtractionResult {
    /// The result of a unit whose extraction failed: nothing extracted.
    pub fn empty() -> (r: Self)
        ensures
            r@.entities.len() == 0,
            r@.relations.len() == 0,
    {
        LlmExtractionResult { entities: Vec::new(), relations: Vec::new() }
    }
}

impl DocSummaryResult {
    /// The result of a unit whose analysis failed: the given title, the given
    /// summary, no tags and no keywords.
    pub fn failed(title: String, summary: String) -> (r: Self)
        ensures
            r@.title == title@,
            r@.summary == summary@,
            r@.tags.len() == 0,
            r@.keywords.len() == 0,
    {
        DocSummaryResult { title, summary, tags: Vec::new(), keywords: Vec::new() }
    }
}

/// A document as the embedding store holds it: an id and its text.
#[derive(Debug)]
pub struct RigDoc {
    pub id: String,
    pub content: String,
}

/// A node of the graph view.
#[derive(Debug)]
pub struct GraphNode {
    pub id: String,
    pub group: String,
    pub label: String,
    pub val: usize,
    pub info: Option<String>,
}

/// A link of the graph view.
#[derive(Debug)]
pub struct GraphLink {
    pub source: String,
    pub target: String,
    pub label: Option<String>,
}

/// A link as the graph query returns it.
#[derive(Debug)]
pub struct GraphLinkRes {
    pub source: String,
    pub target: String,
    pub label: Option<String>,
}

/// The graph view: nodes and the links between them.
#[derive(Debug)]
pub struct GraphData {
    pub nodes: Vec<GraphNode>,
    pub links: Vec<GraphLink>,
}

} // verus!
