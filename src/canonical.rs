//! Canonical identifiers for entity names: the key under which an entity is
//! stored, so that names that agree after normalisation share one node.

use vstd::prelude::*;
use crate::text::{is_ws, trim, trim_start, trim_end, chars_of, string_of, trim_chars};

verus! {

/// What `str::to_lowercase` returns for a string with these characters.
pub uninterp spec fn lower_of(s: Seq<char>) -> Seq<char>;

/// What `char::is_alphanumeric` returns for this character.
pub uninterp spec fn alnum_of(c: char) -> bool;

pub open spec fn is_ascii_char(c: char) -> bool {
    (c as u32) < 128
}

pub open spec fn is_ascii_text(s: Seq<char>) -> bool {
    forall|i: int| 0 <= i < s.len() ==> is_ascii_char(#[trigger] s[i])
}

pub open spec fn is_ascii_upper(c: char) -> bool {
    'A' <= c && c <= 'Z'
}

pub open spec fn is_ascii_alnum(c: char) -> bool {
    ('a' <= c && c <= 'z') || ('A' <= c && c <= 'Z') || ('0' <= c && c <= '9')
}

/// The lowercase of an ASCII character, in the form std maps it.
pub open spec fn ascii_lower(c: char) -> char {
    if is_ascii_upper(c) {
        ((c as u32) + 32) as char
    } else {
        c
    }
}

/// The lowercase of a string: on ASCII text its letters `A`..`Z` become
/// `a`..`z` and the rest is kept; otherwise what std's full Unicode mapping gives.
pub open spec fn lowercase(s: Seq<char>) -> Seq<char> {
    if is_ascii_text(s) {
        s.map_values(|c: char| ascii_lower(c))
    } else {
        lower_of(s)
    }
}

/// Whether a character is alphanumeric: on ASCII the letters and digits;
/// otherwise what std's Unicode tables say.
pub open spec fn alnum(c: char) -> bool {
    if is_ascii_char(c) {
        is_ascii_alnum(c)
    } else {
        alnum_of(c)
    }
}

/// Relies on `str::to_lowercase`: the result depends on the characters alone,
/// and an ASCII string has its letters `A`..`Z` mapped to `a`..`z`, the rest kept.
#[verifier::external_body]
fn to_lowercase(s: &str) -> (r: String)
    ensures
        r@ == (if is_ascii_text(s@) {
            s@.map_values(|c: char| ascii_lower(c))
        } else {
            lower_of(s@)
        }),
{
    s.to_lowercase()
}

/// Relies on `char::is_alphanumeric`: a property of the character alone; on
/// ASCII it holds of the letters and digits exactly.
#[verifier::external_body]
fn is_alphanumeric(c: char) -> (r: bool)
    ensures
        r == (if is_ascii_char(c) {
            is_ascii_alnum(c)
        } else {
            alnum_of(c)
        }),
{
    c.is_alphanumeric()
}

/// Each character that is not alphanumeric replaced by `_`.
pub open spec fn underscore_non_alnum(s: Seq<char>) -> Seq<char> {
    s.map_values(|c: char|
        if alnum(c) {
            c
        } else {
            '_'
        })
}

/// The canonical id of a name: trimmed, lowercased, and each character that
/// is not alphanumeric replaced by `_`.
pub open spec fn canonical_id(s: Seq<char>) -> Seq<char> {
    underscore_non_alnum(lowercase(trim(s)))
}

/// The canonical id of `text` (for example `"Apple Inc."` gives `"apple_inc_"`).
/// Total: every input, the empty one included, has one.
pub fn sanitize_id(text: &str) -> (r: String)
    ensures
        r@ == canonical_id(text@),
{
    let chars = chars_of(text);
    let trimmed = trim_chars(&chars);
    let trimmed_text = string_of(trimmed.as_slice());
    let lowered = to_lowercase(trimmed_text.as_str());
    let low = chars_of(lowered.as_str());
    let mut out: Vec<char> = Vec::new();
    let mut i: usize = 0;
    while i < low.len()
        invariant
            i <= low@.len(),
            low@ == lowercase(trim(text@)),
            out@ == underscore_non_alnum(low@.subrange(0, i as int)),
        decreases low.len() - i,
    {
        let c = low[i];
        let d = if is_alphanumeric(c) {
            c
        } else {
            '_'
        };
        out.push(d);
        assert(out@ =~= underscore_non_alnum(low@.subrange(0, i + 1)));
        i = i + 1;
    }
    assert(low@.subrange(0, low@.len() as int) =~= low@);
    string_of(out.as_slice())
}

proof fn lemma_trim_start_ascii(s: Seq<char>)
    requires
        is_ascii_text(s),
    ensures
        is_ascii_text(trim_start(s)),
    decreases s.len(),
{
    if s.len() > 0 && is_ws(s[0]) {
        assert forall|i: int| 0 <= i < s.drop_first().len() implies is_ascii_char(
            #[trigger] s.drop_first()[i],
        ) by {
            assert(s.drop_first()[i] == s[i + 1]);
        }
        lemma_trim_start_ascii(s.drop_first());
    }
}

proof fn lemma_trim_end_ascii(s: Seq<char>)
    requires
        is_ascii_text(s),
    ensures
        is_ascii_text(trim_end(s)),
    decreases s.len(),
{
    if s.len() > 0 && is_ws(s.last()) {
        assert forall|i: int| 0 <= i < s.drop_last().len() implies is_ascii_char(
            #[trigger] s.drop_last()[i],
        ) by {
            assert(s.drop_last()[i] == s[i]);
        }
        lemma_trim_end_ascii(s.drop_last());
    }
}

/// Canonicalizing is idempotent on ASCII names:
/// `canonical_id(canonical_id(s)) == canonical_id(s)`. (It is a function of
/// the name alone, hence deterministic, for every name.)
pub proof fn lemma_canonical_id_idempotent_ascii(s: Seq<char>)
    requires
        is_ascii_text(s),
    ensures
        canonical_id(canonical_id(s)) == canonical_id(s),
{
    lemma_trim_start_ascii(s);
    lemma_trim_end_ascii(trim_start(s));
    let t = trim(s);
    let low = t.map_values(|c: char| ascii_lower(c));
    assert(lowercase(t) == low);
    let y = canonical_id(s);
    assert(y == underscore_non_alnum(low));
    assert forall|i: int| 0 <= i < y.len() implies is_ascii_char(#[trigger] y[i]) && !is_ws(y[i])
        && !is_ascii_upper(y[i]) && (alnum(y[i]) || y[i] == '_') by {
        let c = t[i];
        assert(is_ascii_char(c));
        assert(low[i] == ascii_lower(c));
    }
    assert(trim_start(y) == y);
    assert(trim_end(y) == y);
    assert(is_ascii_text(y));
    assert(y.map_values(|c: char| ascii_lower(c)) =~= y);
    assert forall|i: int| 0 <= i < y.len() implies #[trigger] underscore_non_alnum(y)[i] == y[i] by {
        assert(alnum(y[i]) || y[i] == '_');
    }
    assert(underscore_non_alnum(y) =~= y);
}

} // verus!
