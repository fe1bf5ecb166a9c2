//! Best-effort repair of the near-JSON text that a language model returns,
//! before it is parsed strictly.

use vstd::prelude::*;
use crate::text::{is_ws, trim, trim_start, trim_end, chars_of, string_of, copy_range, trim_chars};
use crate::search::{
    occurs_at,
    find_from,
    rfind_from,
    find,
    rfind,
    ends_with_char,
    trim_end_commas,
    count,
    copies,
    find_pattern,
    rfind_pattern,
    trim_end_commas_chars,
    count_char,
    push_copies,
};

verus! {

/// Opening fence of a fenced JSON block.
pub const FENCE_JSON: &'static str = "```json";

/// A bare fence.
pub const FENCE: &'static str = "```";

/// What the light repair appends when the text breaks off inside a string
/// of the `relations` array.
pub const TRUNCATED_TAIL: &'static str = "\"}]}";

/// A comma followed only by whitespace before a closing bracket or brace.
pub const TRAILING_COMMA: &'static str = r",(\s*[\]}])";

/// Keeps the closer that followed the comma.
pub const KEEP_CLOSER: &'static str = "$1";

/// An empty key with a string value, `"": "...",`, that some models emit.
pub const EMPTY_KEY: &'static str = r#"\s*""\s*:\s*".*?",?"#;

pub const NOTHING: &'static str = "";

/// The end of the run of whitespace in `s` that starts at `i`.
pub open spec fn ws_end(s: Seq<char>, i: int) -> int
    decreases s.len() - i,
{
    if 0 <= i < s.len() && is_ws(s[i]) {
        ws_end(s, i + 1)
    } else {
        i
    }
}

pub open spec fn is_closer(c: char) -> bool {
    c == ']' || c == '}'
}

/// A comma at `i` that only whitespace separates from a closing bracket or brace.
pub open spec fn dangling_comma(s: Seq<char>, i: int) -> bool {
    0 <= i < s.len() && s[i] == ',' && ws_end(s, i + 1) < s.len() && is_closer(
        s[ws_end(s, i + 1)],
    )
}

/// `s` from position `i` on, without its dangling commas.
pub open spec fn drop_dangling_from(s: Seq<char>, i: int) -> Seq<char>
    decreases s.len() - i,
{
    if i < 0 || i >= s.len() {
        Seq::empty()
    } else if dangling_comma(s, i) {
        drop_dangling_from(s, i + 1)
    } else {
        seq![s[i]] + drop_dangling_from(s, i + 1)
    }
}

/// `s` without the commas that only whitespace separates from a closing
/// bracket or brace.
pub open spec fn without_trailing_commas(s: Seq<char>) -> Seq<char> {
    drop_dangling_from(s, 0)
}

/// The first `"` at or after `i`, if no line break comes before it.
pub open spec fn quote_before_newline(s: Seq<char>, i: int) -> Option<int>
    decreases s.len() - i,
{
    if i < 0 || i >= s.len() {
        None
    } else if s[i] == '"' {
        Some(i)
    } else if s[i] == '\n' {
        None
    } else {
        quote_before_newline(s, i + 1)
    }
}

/// Where a match of `EMPTY_KEY` that starts at `i` ends, if one starts there:
/// whitespace, `""`, whitespace, `:`, whitespace, `"`, the shortest run of
/// characters other than a line break up to the next `"`, and a comma if one
/// follows.
pub open spec fn empty_key_end(s: Seq<char>, i: int) -> Option<int> {
    let j = ws_end(s, i);
    if 0 <= j && j + 1 < s.len() && s[j] == '"' && s[j + 1] == '"' {
        let k = ws_end(s, j + 2);
        if k < s.len() && s[k] == ':' {
            let l = ws_end(s, k + 1);
            if l < s.len() && s[l] == '"' {
                match quote_before_newline(s, l + 1) {
                    Some(q) => Some(
                        if q + 1 < s.len() && s[q + 1] == ',' {
                            q + 2
                        } else {
                            q + 1
                        },
                    ),
                    None => None,
                }
            } else {
                None
            }
        } else {
            None
        }
    } else {
        None
    }
}

/// `s` from position `i` on with each leftmost match of `EMPTY_KEY` removed,
/// the search going on after each match.
pub open spec fn drop_empty_keys_from(s: Seq<char>, i: int) -> Seq<char>
    decreases s.len() - i,
{
    if i < 0 || i >= s.len() {
        Seq::empty()
    } else {
        match empty_key_end(s, i) {
            Some(e) => if i < e && e <= s.len() {
                drop_empty_keys_from(s, e)
            } else {
                seq![s[i]] + drop_empty_keys_from(s, i + 1)
            },
            None => seq![s[i]] + drop_empty_keys_from(s, i + 1),
        }
    }
}

/// `s` without its empty-key artifacts `"": "...",`.
pub open spec fn without_empty_keys(s: Seq<char>) -> Seq<char> {
    drop_empty_keys_from(s, 0)
}

/// Relies on `regex::Regex::new` and `regex::Regex::replace_all` with the
/// fixed pattern `TRAILING_COMMA` and replacement `$1`: `\s` is Unicode
/// whitespace, the greedy `\s*` can end only at a closer, and the matches
/// do not overlap, so exactly the dangling commas are removed.
#[verifier::external_body]
fn remove_trailing_commas(s: &str) -> (r: String)
    ensures
        r@ == without_trailing_commas(s@),
{
    match regex::Regex::new(TRAILING_COMMA) {
        Ok(re) => re.replace_all(s, KEEP_CLOSER).into_owned(),
        Err(_) => s.to_string(),
    }
}

/// Relies on `regex::Regex::new` and `regex::Regex::replace_all` with the
/// fixed pattern `EMPTY_KEY` and an empty replacement: leftmost-first
/// matches, searched again after each match; `.` does not match a line
/// break and `.*?` takes the shortest run that lets the match succeed.
#[verifier::external_body]
fn remove_empty_keys(s: &str) -> (r: String)
    ensures
        r@ == without_empty_keys(s@),
{
    match regex::Regex::new(EMPTY_KEY) {
        Ok(re) => re.replace_all(s, NOTHING).into_owned(),
        Err(_) => s.to_string(),
    }
}

/// What follows the first opening fence (``` ```json ``` before a bare
/// ``` ``` ```), or all of `s` when there is none.
pub open spec fn after_opening_fence(s: Seq<char>) -> Seq<char> {
    match find(s, FENCE_JSON@) {
        Some(i) => s.subrange(i + FENCE_JSON@.len(), s.len() as int),
        None => match find(s, FENCE@) {
            Some(i) => s.subrange(i + FENCE@.len(), s.len() as int),
            None => s,
        },
    }
}

/// What precedes the last fence, or all of `s` when there is none.
pub open spec fn before_closing_fence(s: Seq<char>) -> Seq<char> {
    match rfind(s, FENCE@) {
        Some(j) => s.subrange(0, j),
        None => s,
    }
}

/// The trimmed text with its Markdown fences removed, trimmed again.
pub open spec fn unfenced(s: Seq<char>) -> Seq<char> {
    trim(before_closing_fence(after_opening_fence(trim(s))))
}

/// The relations closing rule: text that does not end with `}` loses its trailing
/// commas and is closed as a `relations` array that broke off.
pub open spec fn close_as_relations(c: Seq<char>) -> Seq<char> {
    if ends_with_char(c, '}') {
        c
    } else {
        let d = trim_end_commas(c);
        if ends_with_char(d, '}') && d.len() >= 2 && d[d.len() - 2] == ']' {
            d
        } else if ends_with_char(d, ']') {
            d.push('}')
        } else if ends_with_char(d, '}') {
            d
        } else {
            d + TRUNCATED_TAIL@
        }
    }
}

/// What the light repair returns: fences stripped, then the relations closing rule.
pub open spec fn cleaned_response(s: Seq<char>) -> Seq<char> {
    close_as_relations(unfenced(s))
}

/// Closing a truncated text: one that does not end with `}` loses its trailing
/// commas and surrounding whitespace, gets one `]` for each `[` left open and
/// then one `}` for each `{` left open, and a final `}` if it still does not
/// end with one.
pub open spec fn close_truncated(s: Seq<char>) -> Seq<char> {
    if ends_with_char(s, '}') {
        s
    } else {
        let t = trim(trim_end_commas(s));
        let u = t + copies(']', count(t, '[') - count(t, ']')) + copies(
            '}',
            count(t, '{') - count(t, '}'),
        );
        if ends_with_char(u, '}') {
            u
        } else {
            u.push('}')
        }
    }
}

/// What the repairer returns: fences stripped, trailing commas and empty keys
/// removed, truncated text closed.
pub open spec fn repaired(s: Seq<char>) -> Seq<char> {
    close_truncated(without_empty_keys(without_trailing_commas(unfenced(s))))
}

/// As many `[` as `]`, and as many `{` as `}`.
pub open spec fn balanced(s: Seq<char>) -> bool {
    count(s, '[') == count(s, ']') && count(s, '{') == count(s, '}')
}

fn unfence(v: &Vec<char>) -> (r: Vec<char>)
    ensures
        r@ == unfenced(v@),
{
    let t = trim_chars(v);
    let fence_json = chars_of(FENCE_JSON);
    let fence = chars_of(FENCE);
    let n = t.len();
    let a = match find_pattern(&t, &fence_json) {
        Some(i) => copy_range(&t, i + fence_json.len(), n),
        None => match find_pattern(&t, &fence) {
            Some(i) => copy_range(&t, i + fence.len(), n),
            None => t,
        },
    };
    assert(a@ == after_opening_fence(trim(v@)));
    let b = match rfind_pattern(&a, &fence) {
        Some(j) => copy_range(&a, 0, j),
        None => a,
    };
    trim_chars(&b)
}

fn ends_with(v: &Vec<char>, c: char) -> (r: bool)
    ensures
        r == ends_with_char(v@, c),
{
    v.len() > 0 && v[v.len() - 1] == c
}

/// The text of `v`, closed as `close_truncated` says.
fn close_truncated_chars(v: &Vec<char>) -> (r: Vec<char>)
    ensures
        r@ == close_truncated(v@),
{
    if ends_with(v, '}') {
        return copy_range(v, 0, v.len());
    }
    let d = trim_end_commas_chars(v);
    let mut u = trim_chars(&d);
    let ghost t = u@;
    let open_brackets = count_char(&u, '[');
    let close_brackets = count_char(&u, ']');
    let open_braces = count_char(&u, '{');
    let close_braces = count_char(&u, '}');
    if open_brackets > close_brackets {
        push_copies(&mut u, ']', open_brackets - close_brackets);
    } else {
        assert(copies(']', open_brackets - close_brackets) =~= Seq::<char>::empty());
        assert(u@ =~= t + copies(']', open_brackets - close_brackets));
    }
    let ghost t2 = u@;
    if open_braces > close_braces {
        push_copies(&mut u, '}', open_braces - close_braces);
    } else {
        assert(copies('}', open_braces - close_braces) =~= Seq::<char>::empty());
        assert(u@ =~= t2 + copies('}', open_braces - close_braces));
    }
    if !ends_with(&u, '}') {
        u.push('}');
    }
    proof {
        assert(v@.subrange(0, v@.len() as int) =~= v@);
    }
    u
}

/// Closes a truncated JSON text: see `close_truncated`.
pub fn close_truncated_json(text: &str) -> (r: String)
    ensures
        r@ == close_truncated(text@),
{
    let v = chars_of(text);
    let c = close_truncated_chars(&v);
    string_of(c.as_slice())
}

/// The light repair: fences stripped, and text that does not end with `}`
/// closed as a `relations` array that broke off.
pub fn clean_json_response(response: &str) -> (r: String)
    ensures
        r@ == cleaned_response(response@),
{
    let v = chars_of(response);
    let c = unfence(&v);
    if ends_with(&c, '}') {
        return string_of(c.as_slice());
    }
    let mut d = trim_end_commas_chars(&c);
    let n = d.len();
    if n >= 2 && d[n - 1] == '}' && d[n - 2] == ']' {
    } else if ends_with(&d, ']') {
        d.push('}');
    } else if ends_with(&d, '}') {
    } else {
        let tail = chars_of(TRUNCATED_TAIL);
        let mut k: usize = 0;
        let ghost d0 = d@;
        while k < tail.len()
            invariant
                k <= tail@.len(),
                d@ == d0 + tail@.subrange(0, k as int),
            decreases tail.len() - k,
        {
            d.push(tail[k]);
            assert(d@ =~= d0 + tail@.subrange(0, k + 1));
            k = k + 1;
        }
        assert(tail@.subrange(0, tail@.len() as int) =~= tail@);
    }
    string_of(d.as_slice())
}

/// Repairs near-JSON model output: strips a leading ``` ```json ``` or
/// ``` ``` ``` fence and a trailing one, removes commas right before a closing
/// `]` or `}`, removes empty-key artifacts `"": "...",`, and closes text that
/// was cut off (see `close_truncated`).
pub fn clean_and_repair_json(input: &str) -> (r: String)
    ensures
        r@ == repaired(input@),
{
    let v = chars_of(input);
    let c = unfence(&v);
    let text = string_of(c.as_slice());
    let no_commas = remove_trailing_commas(text.as_str());
    let no_empty_keys = remove_empty_keys(no_commas.as_str());
    let w = chars_of(no_empty_keys.as_str());
    let closed = close_truncated_chars(&w);
    string_of(closed.as_slice())
}

proof fn lemma_count_drop_first(s: Seq<char>, c: char)
    requires
        s.len() > 0,
    ensures
        count(s, c) == count(s.drop_first(), c) + if s[0] == c {
            1nat
        } else {
            0nat
        },
    decreases s.len(),
{
    if s.len() > 1 {
        lemma_count_drop_first(s.drop_last(), c);
        assert(s.drop_last().drop_first() =~= s.drop_first().drop_last());
        assert(s.drop_first().last() == s.last());
        assert(s.drop_last()[0] == s[0]);
    } else {
        assert(s.drop_first().len() == 0);
        assert(s.drop_last().len() == 0);
        assert(count(s.drop_last(), c) == 0);
        assert(count(s.drop_first(), c) == 0);
        assert(s.last() == s[0]);
    }
}

proof fn lemma_count_concat(a: Seq<char>, b: Seq<char>, c: char)
    ensures
        count(a + b, c) == count(a, c) + count(b, c),
    decreases b.len(),
{
    if b.len() == 0 {
        assert(a + b =~= a);
    } else {
        lemma_count_concat(a, b.drop_last(), c);
        assert((a + b).drop_last() =~= a + b.drop_last());
    }
}

proof fn lemma_count_copies(x: char, n: int, c: char)
    ensures
        count(copies(x, n), c) == if x == c && n > 0 {
            n as nat
        } else {
            0nat
        },
    decreases n,
{
    if n > 0 {
        lemma_count_copies(x, n - 1, c);
        assert(copies(x, n).drop_last() =~= copies(x, n - 1));
    } else {
        assert(copies(x, n).len() == 0);
    }
}

proof fn lemma_count_trim_end_commas(s: Seq<char>, c: char)
    requires
        c != ',',
    ensures
        count(trim_end_commas(s), c) == count(s, c),
    decreases s.len(),
{
    if ends_with_char(s, ',') {
        lemma_count_trim_end_commas(s.drop_last(), c);
    }
}

proof fn lemma_count_trim_start(s: Seq<char>, c: char)
    requires
        !is_ws(c),
    ensures
        count(trim_start(s), c) == count(s, c),
    decreases s.len(),
{
    if s.len() > 0 && is_ws(s[0]) {
        lemma_count_trim_start(s.drop_first(), c);
        lemma_count_drop_first(s, c);
    }
}

proof fn lemma_count_trim_end(s: Seq<char>, c: char)
    requires
        !is_ws(c),
    ensures
        count(trim_end(s), c) == count(s, c),
    decreases s.len(),
{
    if s.len() > 0 && is_ws(s.last()) {
        lemma_count_trim_end(s.drop_last(), c);
    }
}

/// Trimming whitespace and trailing commas keeps the count of `c`.
proof fn lemma_count_trim(s: Seq<char>, c: char)
    requires
        !is_ws(c),
        c != ',',
    ensures
        count(trim(trim_end_commas(s)), c) == count(s, c),
{
    lemma_count_trim_end_commas(s, c);
    lemma_count_trim_start(trim_end_commas(s), c);
    lemma_count_trim_end(trim_start(trim_end_commas(s)), c);
}

/// The closing step always leaves text that ends with `}`, so applying it
/// again changes nothing.
pub proof fn lemma_close_truncated_idempotent(s: Seq<char>)
    ensures
        ends_with_char(close_truncated(s), '}'),
        close_truncated(close_truncated(s)) == close_truncated(s),
{
    if !ends_with_char(s, '}') {
        let t = trim(trim_end_commas(s));
        let u = t + copies(']', count(t, '[') - count(t, ']')) + copies(
            '}',
            count(t, '{') - count(t, '}'),
        );
        if !ends_with_char(u, '}') {
            assert(u.push('}').last() == '}');
        }
    }
}

/// Closing a truncated JSON object balances it: when `s` has more `{` than
/// `}`, no more `]` than `[`, and does not end with `}`, the closed text has
/// as many `[` as `]` and as many `{` as `}`.
pub proof fn lemma_close_truncated_balances(s: Seq<char>)
    requires
        count(s, '{') > count(s, '}'),
        count(s, '[') >= count(s, ']'),
        !ends_with_char(s, '}'),
    ensures
        balanced(close_truncated(s)),
{
    let t = trim(trim_end_commas(s));
    lemma_count_trim(s, '[');
    lemma_count_trim(s, ']');
    lemma_count_trim(s, '{');
    lemma_count_trim(s, '}');
    let a = copies(']', count(t, '[') - count(t, ']'));
    let b = copies('}', count(t, '{') - count(t, '}'));
    let u = t + a + b;
    assert(b.len() > 0);
    assert(u.last() == b.last());
    lemma_count_concat(t, a, '[');
    lemma_count_concat(t, a, ']');
    lemma_count_concat(t, a, '{');
    lemma_count_concat(t, a, '}');
    lemma_count_concat(t + a, b, '[');
    lemma_count_concat(t + a, b, ']');
    lemma_count_concat(t + a, b, '{');
    lemma_count_concat(t + a, b, '}');
    lemma_count_copies(']', count(t, '[') - count(t, ']'), '[');
    lemma_count_copies(']', count(t, '[') - count(t, ']'), ']');
    lemma_count_copies(']', count(t, '[') - count(t, ']'), '{');
    lemma_count_copies(']', count(t, '[') - count(t, ']'), '}');
    lemma_count_copies('}', count(t, '{') - count(t, '}'), '[');
    lemma_count_copies('}', count(t, '{') - count(t, '}'), ']');
    lemma_count_copies('}', count(t, '{') - count(t, '}'), '{');
    lemma_count_copies('}', count(t, '{') - count(t, '}'), '}');
}

/// No character of `s` is a backtick.
pub open spec fn no_backtick(s: Seq<char>) -> bool {
    forall|k: int| 0 <= k < s.len() ==> #[trigger] s[k] != '`'
}

/// No two adjacent characters of `s` are both `"`.
pub open spec fn no_quote_pair(s: Seq<char>) -> bool {
    forall|k: int| 0 <= k < s.len() - 1 ==> !(#[trigger] s[k] == '"' && s[k + 1] == '"')
}

proof fn lemma_ws_end(s: Seq<char>, i: int)
    requires
        0 <= i <= s.len(),
    ensures
        i <= ws_end(s, i) <= s.len(),
        forall|k: int| i <= k < ws_end(s, i) ==> is_ws(#[trigger] s[k]),
        ws_end(s, i) < s.len() ==> !is_ws(s[ws_end(s, i)]),
    decreases s.len() - i,
{
    if i < s.len() && is_ws(s[i]) {
        lemma_ws_end(s, i + 1);
    }
}

proof fn lemma_count_single_front(x: char, rest: Seq<char>, c: char)
    ensures
        count(seq![x] + rest, c) == count(rest, c) + if x == c {
            1nat
        } else {
            0nat
        },
{
    lemma_count_concat(seq![x], rest, c);
    assert(seq![x].drop_last() =~= Seq::<char>::empty());
    assert(count(Seq::<char>::empty(), c) == 0);
    assert(seq![x].last() == x);
    assert(count(seq![x], c) == count(seq![x].drop_last(), c) + if x == c {
        1nat
    } else {
        0nat
    });
}

/// Dropping dangling commas keeps every other character's count and the last
/// character, adds no `""`, and starts with the first character or, after a
/// dropped comma, with the whitespace or closer that follows it.
proof fn lemma_drop_dangling(s: Seq<char>, i: int)
    requires
        0 <= i <= s.len(),
    ensures
        forall|c: char| c != ',' ==> #[trigger] count(drop_dangling_from(s, i), c) == count(
            s.subrange(i, s.len() as int),
            c,
        ),
        no_quote_pair(s.subrange(i, s.len() as int)) ==> no_quote_pair(drop_dangling_from(s, i)),
        i < s.len() ==> drop_dangling_from(s, i).len() > 0 && drop_dangling_from(s, i).last()
            == s.last(),
        i < s.len() ==> (drop_dangling_from(s, i)[0] == s[i] || (i + 1 < s.len()
            && drop_dangling_from(s, i)[0] == s[i + 1] && s[i + 1] != '"' && s[i] != '"')),
    decreases s.len() - i,
{
    let d = drop_dangling_from(s, i);
    if i < s.len() {
        let r = drop_dangling_from(s, i + 1);
        lemma_drop_dangling(s, i + 1);
        assert(s.subrange(i, s.len() as int) =~= seq![s[i]] + s.subrange(i + 1, s.len() as int));
        assert forall|c: char| c != ',' implies #[trigger] count(d, c) == count(
            s.subrange(i, s.len() as int),
            c,
        ) by {
            lemma_count_single_front(s[i], s.subrange(i + 1, s.len() as int), c);
            if !dangling_comma(s, i) {
                lemma_count_single_front(s[i], r, c);
            }
        }
        if dangling_comma(s, i) {
            lemma_ws_end(s, i + 1);
            assert(i + 1 < s.len());
            assert(is_ws(s[i + 1]) || is_closer(s[i + 1]));
            assert(!dangling_comma(s, i + 1));
            assert(r[0] == s[i + 1]);
            assert(no_quote_pair(s.subrange(i, s.len() as int)) ==> no_quote_pair(
                s.subrange(i + 1, s.len() as int),
            )) by {
                if no_quote_pair(s.subrange(i, s.len() as int)) {
                    assert forall|k: int| 0 <= k < s.subrange(i + 1, s.len() as int).len() - 1 implies !(
                    #[trigger] s.subrange(i + 1, s.len() as int)[k] == '"' && s.subrange(
                        i + 1,
                        s.len() as int,
                    )[k + 1] == '"') by {
                        assert(s.subrange(i + 1, s.len() as int)[k] == s.subrange(
                            i,
                            s.len() as int,
                        )[k + 1]);
                        assert(s.subrange(i + 1, s.len() as int)[k + 1] == s.subrange(
                            i,
                            s.len() as int,
                        )[k + 2]);
                    }
                }
            }
        } else {
            if i + 1 == s.len() {
                assert(r.len() == 0);
                assert(d =~= seq![s[i]]);
            } else {
                assert(d.last() == r.last());
            }
            if no_quote_pair(s.subrange(i, s.len() as int)) {
                let sub = s.subrange(i, s.len() as int);
                assert(no_quote_pair(s.subrange(i + 1, s.len() as int))) by {
                    assert forall|k: int| 0 <= k < s.subrange(i + 1, s.len() as int).len() - 1 implies !(
                    #[trigger] s.subrange(i + 1, s.len() as int)[k] == '"' && s.subrange(
                        i + 1,
                        s.len() as int,
                    )[k + 1] == '"') by {
                        assert(s.subrange(i + 1, s.len() as int)[k] == sub[k + 1]);
                        assert(s.subrange(i + 1, s.len() as int)[k + 1] == sub[k + 2]);
                    }
                }
                assert forall|k: int| 0 <= k < d.len() - 1 implies !(#[trigger] d[k] == '"' && d[k
                    + 1] == '"') by {
                    if k == 0 {
                        if s[i] == '"' && r.len() > 0 {
                            assert(sub[0] == s[i]);
                            if r[0] == s[i + 1] {
                                assert(sub[1] == s[i + 1]);
                            }
                        }
                    } else {
                        assert(d[k] == r[k - 1]);
                        assert(d[k + 1] == r[k]);
                    }
                }
            }
        }
    }
}

/// Without `""` in the text, the empty-key pass changes nothing.
proof fn lemma_no_empty_keys(s: Seq<char>, i: int)
    requires
        no_quote_pair(s),
        0 <= i <= s.len(),
    ensures
        drop_empty_keys_from(s, i) == s.subrange(i, s.len() as int),
    decreases s.len() - i,
{
    if i < s.len() {
        lemma_ws_end(s, i);
        let j = ws_end(s, i);
        if j + 1 < s.len() && s[j] == '"' {
            assert(!(s[j] == '"' && s[j + 1] == '"'));
        }
        assert(empty_key_end(s, i) is None);
        lemma_no_empty_keys(s, i + 1);
        assert(seq![s[i]] + s.subrange(i + 1, s.len() as int) =~= s.subrange(i, s.len() as int));
    } else {
        assert(s.subrange(i, s.len() as int) =~= Seq::<char>::empty());
    }
}

proof fn lemma_find_from_occurs(s: Seq<char>, pat: Seq<char>, i: int)
    ensures
        find_from(s, pat, i) matches Some(k) ==> occurs_at(s, pat, k),
    decreases s.len() + 1 - i,
{
    if !(i < 0 || i + pat.len() > s.len()) && !occurs_at(s, pat, i) {
        lemma_find_from_occurs(s, pat, i + 1);
    }
}

proof fn lemma_rfind_from_occurs(s: Seq<char>, pat: Seq<char>, i: int)
    ensures
        rfind_from(s, pat, i) matches Some(k) ==> occurs_at(s, pat, k),
    decreases i + 1,
{
    if i >= 0 && !occurs_at(s, pat, i) {
        lemma_rfind_from_occurs(s, pat, i - 1);
    }
}

/// A pattern that starts with a backtick does not occur in text without one.
proof fn lemma_no_fence(s: Seq<char>, pat: Seq<char>)
    requires
        no_backtick(s),
        pat.len() > 0,
        pat[0] == '`',
    ensures
        find(s, pat) is None,
        rfind(s, pat) is None,
{
    lemma_find_from_occurs(s, pat, 0);
    lemma_rfind_from_occurs(s, pat, s.len() - pat.len());
    if let Some(k) = find(s, pat) {
        assert(s.subrange(k, k + pat.len())[0] == s[k]);
    }
    if let Some(k) = rfind(s, pat) {
        assert(s.subrange(k, k + pat.len())[0] == s[k]);
    }
}

proof fn lemma_trim_start_shape(s: Seq<char>)
    ensures
        exists|a: int| 0 <= a <= s.len() && trim_start(s) == s.subrange(a, s.len() as int),
        trim_start(s).len() == 0 || !is_ws(trim_start(s)[0]),
    decreases s.len(),
{
    if s.len() > 0 && is_ws(s[0]) {
        lemma_trim_start_shape(s.drop_first());
        let a = choose|a: int|
            0 <= a <= s.drop_first().len() && trim_start(s.drop_first()) == s.drop_first().subrange(
                a,
                s.drop_first().len() as int,
            );
        assert(s.drop_first().subrange(a, s.drop_first().len() as int) =~= s.subrange(
            a + 1,
            s.len() as int,
        ));
    } else {
        assert(s.subrange(0, s.len() as int) =~= s);
    }
}

proof fn lemma_trim_end_shape(s: Seq<char>)
    ensures
        exists|b: int| 0 <= b <= s.len() && trim_end(s) == s.subrange(0, b),
        trim_end(s).len() == 0 || !is_ws(trim_end(s).last()),
    decreases s.len(),
{
    if s.len() > 0 && is_ws(s.last()) {
        lemma_trim_end_shape(s.drop_last());
        let b = choose|b: int|
            0 <= b <= s.drop_last().len() && trim_end(s.drop_last()) == s.drop_last().subrange(0, b);
        assert(s.drop_last().subrange(0, b) =~= s.subrange(0, b));
    } else {
        assert(s.subrange(0, s.len() as int) =~= s);
    }
}

/// Trimming keeps text free of backticks and of `""`, and trimming again
/// changes nothing.
proof fn lemma_trim_facts(s: Seq<char>)
    ensures
        trim(trim(s)) == trim(s),
        no_backtick(s) ==> no_backtick(trim(s)),
        no_quote_pair(s) ==> no_quote_pair(trim(s)),
{
    lemma_trim_start_shape(s);
    let x = trim_start(s);
    lemma_trim_end_shape(x);
    let y = trim_end(x);
    let a = choose|a: int| 0 <= a <= s.len() && x == s.subrange(a, s.len() as int);
    let b = choose|b: int| 0 <= b <= x.len() && y == x.subrange(0, b);
    assert(y =~= s.subrange(a, a + b));
    if y.len() > 0 {
        assert(y[0] == x[0]);
    }
    assert(trim_start(y) == y);
    assert(trim_end(y) == y);
    if no_backtick(s) {
        assert forall|k: int| 0 <= k < y.len() implies #[trigger] y[k] != '`' by {
            assert(y[k] == s[a + k]);
        }
    }
    if no_quote_pair(s) {
        assert forall|k: int| 0 <= k < y.len() - 1 implies !(#[trigger] y[k] == '"' && y[k + 1]
            == '"') by {
            assert(y[k] == s[a + k]);
            assert(y[k + 1] == s[a + k + 1]);
        }
    }
}

/// Repairing a truncated JSON object balances it: when the text has no
/// backtick and no `""`, more `{` than `}`, no more `]` than `[`, and does not
/// end with `}` once trimmed, the repaired text has as many `[` as `]` and as
/// many `{` as `}`.
pub proof fn lemma_repair_balances(s: Seq<char>)
    requires
        no_backtick(s),
        no_quote_pair(s),
        count(s, '{') > count(s, '}'),
        count(s, '[') >= count(s, ']'),
        !ends_with_char(trim(s), '}'),
    ensures
        balanced(repaired(s)),
{
    let t = trim(s);
    lemma_trim_facts(s);
    reveal_strlit("```json");
    reveal_strlit("```");
    lemma_no_fence(t, FENCE_JSON@);
    lemma_no_fence(t, FENCE@);
    assert(after_opening_fence(t) == t);
    assert(before_closing_fence(t) == t);
    assert(unfenced(s) == t);
    lemma_drop_dangling(t, 0);
    assert(t.subrange(0, t.len() as int) =~= t);
    let u = without_trailing_commas(t);
    lemma_no_empty_keys(u, 0);
    assert(u.subrange(0, u.len() as int) =~= u);
    assert(without_empty_keys(u) == u);
    lemma_count_trim_start(s, '{');
    lemma_count_trim_start(s, '}');
    lemma_count_trim_start(s, '[');
    lemma_count_trim_start(s, ']');
    lemma_count_trim_end(trim_start(s), '{');
    lemma_count_trim_end(trim_start(s), '}');
    lemma_count_trim_end(trim_start(s), '[');
    lemma_count_trim_end(trim_start(s), ']');
    assert(count(u, '{') == count(t, '{'));
    assert(count(u, '}') == count(t, '}'));
    assert(count(u, '[') == count(t, '['));
    assert(count(u, ']') == count(t, ']'));
    if t.len() == 0 {
        assert(u.len() == 0);
    }
    assert(!ends_with_char(u, '}'));
    lemma_close_truncated_balances(u);
}

} // verus!
