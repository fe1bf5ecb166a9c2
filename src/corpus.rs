//! Documents for an embedding store: a file's text cut into numbered parts.

use vstd::prelude::*;
use crate::chunker::{chunk_text, chunks, views};
use crate::models::RigDoc;
use crate::text::{decimal, push_text, push_decimal, string_of};

verus! {

/// Window size, in characters, of a part.
pub const PART_SIZE: usize = 2000;

/// Characters that consecutive parts share.
pub const PART_OVERLAP: usize = 200;

pub const PART_INFIX: &'static str = "_part_";

/// The id of part `i` of a file: `<file name>_part_<i>`.
pub open spec fn part_id(file_name: Seq<char>, i: nat) -> Seq<char> {
    file_name + PART_INFIX@ + decimal(i)
}

/// The parts of a file's text, in order: each is a chunk of `PART_SIZE`
/// characters overlapping the previous one by `PART_OVERLAP`, with the id of
/// its position.
pub fn rig_docs(file_name: &str, content: &str) -> (r: Vec<RigDoc>)
    ensures
        r@.len() == chunks(content@, PART_SIZE as nat, PART_OVERLAP as nat).len(),
        forall|i: int|
            0 <= i < r@.len() ==> (#[trigger] r@[i]).id@ == part_id(file_name@, i as nat)
                && r@[i].content@ == chunks(content@, PART_SIZE as nat, PART_OVERLAP as nat)[i],
{
    let parts = match chunk_text(content, PART_SIZE, PART_OVERLAP) {
        Ok(v) => v,
        Err(_) => Vec::new(),
    };
    let ghost cs = chunks(content@, PART_SIZE as nat, PART_OVERLAP as nat);
    let mut out: Vec<RigDoc> = Vec::new();
    let mut i: usize = 0;
    while i < parts.len()
        invariant
            views(parts@) == cs,
            i <= parts@.len(),
            out@.len() == i,
            forall|k: int|
                0 <= k < i ==> (#[trigger] out@[k]).id@ == part_id(file_name@, k as nat)
                    && out@[k].content@ == cs[k],
        decreases parts.len() - i,
    {
        let mut id: Vec<char> = Vec::new();
        push_text(&mut id, file_name);
        push_text(&mut id, PART_INFIX);
        push_decimal(&mut id, i);
        assert(views(parts@)[i as int] == parts@[i as int]@);
        out.push(RigDoc { id: string_of(id.as_slice()), content: parts[i].clone() });
        i = i + 1;
    }
    out
}

} // verus!
