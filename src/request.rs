//! What the extraction client derives from its inputs before it calls the
//! inference endpoint.

use vstd::prelude::*;
use crate::text::{chars_of, copy_range, push_text, push_decimal, decimal, string_of};

verus! {

/// Path of the chat-completion route under the endpoint's base URL.
pub const COMPLETIONS_PATH: &'static str = "/chat/completions";

/// How many characters of a text the analysis variant sends.
pub const SUMMARY_INPUT_CHARS: usize = 2000;

/// How many leading units make up the context of a document's own summary.
pub const CONTEXT_PAGES: usize = 2;

pub const PAGE_TITLE: &'static str = "Page ";

/// `s` without its trailing slashes.
pub open spec fn trim_end_slashes(s: Seq<char>) -> Seq<char>
    decreases s.len(),
{
    if s.len() > 0 && s.last() == '/' {
        trim_end_slashes(s.drop_last())
    } else {
        s
    }
}

/// The URL the chat request is posted to: the base URL without trailing
/// slashes, then `/chat/completions`.
pub fn completions_endpoint(base_url: &str) -> (r: String)
    ensures
        r@ == trim_end_slashes(base_url@) + COMPLETIONS_PATH@,
{
    let v = chars_of(base_url);
    let mut b: usize = v.len();
    assert(v@.subrange(0, b as int) =~= v@);
    while b > 0 && v[b - 1] == '/'
        invariant
            b <= v@.len(),
            trim_end_slashes(v@.subrange(0, b as int)) == trim_end_slashes(base_url@),
            v@ == base_url@,
        decreases b,
    {
        assert(v@.subrange(0, b as int).drop_last() =~= v@.subrange(0, b - 1));
        b = b - 1;
    }
    let mut out = copy_range(&v, 0, b);
    push_text(&mut out, COMPLETIONS_PATH);
    string_of(out.as_slice())
}

/// The first `max` characters of a text, or all of it when it is shorter.
pub open spec fn prefix_chars(s: Seq<char>, max: nat) -> Seq<char> {
    if s.len() <= max {
        s
    } else {
        s.take(max as int)
    }
}

/// The part of a text that the analysis variant sends: its first
/// `SUMMARY_INPUT_CHARS` characters.
pub fn summary_input(text: &str) -> (r: String)
    ensures
        r@ == prefix_chars(text@, SUMMARY_INPUT_CHARS as nat),
{
    let v = chars_of(text);
    let n = if v.len() <= SUMMARY_INPUT_CHARS {
        v.len()
    } else {
        SUMMARY_INPUT_CHARS
    };
    let out = copy_range(&v, 0, n);
    assert(v@.len() <= SUMMARY_INPUT_CHARS ==> v@.subrange(0, n as int) =~= v@);
    string_of(out.as_slice())
}

/// The first `CONTEXT_PAGES` units joined by newlines.
pub open spec fn joined_context(pages: Seq<Seq<char>>) -> Seq<char> {
    if pages.len() == 0 {
        Seq::empty()
    } else if pages.len() == 1 {
        pages[0]
    } else {
        pages[0] + seq!['\n'] + pages[1]
    }
}

/// What a document's own summary is asked of: its first two units, joined
/// by a newline.
pub fn summary_context(pages: &Vec<String>) -> (r: String)
    ensures
        r@ == joined_context(pages@.map_values(|p: String| p@)),
{
    let mut out: Vec<char> = Vec::new();
    if pages.len() > 0 {
        push_text(&mut out, pages[0].as_str());
    }
    if pages.len() > 1 {
        out.push('\n');
        push_text(&mut out, pages[1].as_str());
    }
    assert(out@ =~= joined_context(pages@.map_values(|p: String| p@)));
    string_of(out.as_slice())
}

/// The title a unit gets when its analysis failed: `Page ` and its 1-based number.
pub fn fallback_page_title(index: usize) -> (r: String)
    requires
        index < usize::MAX,
    ensures
        r@ == PAGE_TITLE@ + decimal(index as nat + 1),
{
    let mut out: Vec<char> = Vec::new();
    push_text(&mut out, PAGE_TITLE);
    push_decimal(&mut out, index + 1);
    string_of(out.as_slice())
}

} // verus!
