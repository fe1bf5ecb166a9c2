//! Fresh record keys for the nodes an ingestion run creates.

use vstd::prelude::*;
use crate::models::DocSummaryResult;
use crate::ingest::PageInput;

verus! {

/// Relies on `uuid::Uuid::new_v4` and `Uuid`'s `Display`: a random version-4
/// UUID written in its hyphenated form, 36 characters.
#[verifier::external_body]
fn new_uuid() -> (r: String)
    ensures
        r@.len() == 36,
{
    uuid::Uuid::new_v4().to_string()
}

/// A fresh random record key: a version-4 UUID, 36 characters.
pub fn new_record_key() -> (r: String)
    ensures
        r@.len() == 36,
{
    new_uuid()
}

/// A unit ready to be stored as a chunk under a fresh key.
pub fn fresh_page_input(text: String, analysis: DocSummaryResult) -> (r: PageInput)
    ensures
        r.text@ == text@,
        r.analysis@ == analysis@,
        r.key@.len() == 36,
{
    PageInput { key: new_uuid(), text, analysis }
}

} // verus!
