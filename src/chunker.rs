//! Splits text into overlapping fixed-size windows of characters.

use vstd::prelude::*;
use crate::text::{is_blank, is_ws, chars_of, copy_range, is_blank_range, string_of};

verus! {

/// Why a chunking request was refused.
#[derive(Debug, PartialEq, Eq)]
pub enum ChunkError {
    /// The overlap is not smaller than the window, so the window would never advance.
    InvalidConfiguration { chunk_size: usize, overlap: usize },
}

/// The windows `(start, end)` over a text of `len` characters, from `start` on:
/// each is `size` long or stops at the end of the text, and the next begins
/// `step` characters later; the first window that reaches the end is the last.
pub open spec fn spans_from(len: int, size: int, step: int, start: int) -> Seq<(int, int)>
    decreases len - start,
{
    if start < 0 || start >= len || step <= 0 || size < step {
        Seq::empty()
    } else {
        let end = if start + size < len {
            start + size
        } else {
            len
        };
        let rest = if end == len {
            Seq::empty()
        } else {
            spans_from(len, size, step, start + step)
        };
        seq![(start, end)] + rest
    }
}

/// All windows of a chunking of `s`, blank or not.
pub open spec fn windows(s: Seq<char>, size: nat, overlap: nat) -> Seq<(int, int)> {
    spans_from(s.len() as int, size as int, size - overlap, 0)
}

/// The text of each window that is not blank, in order.
pub open spec fn nonblank_slices(s: Seq<char>, spans: Seq<(int, int)>) -> Seq<Seq<char>>
    decreases spans.len(),
{
    if spans.len() == 0 {
        Seq::empty()
    } else {
        let w = s.subrange(spans[0].0, spans[0].1);
        let rest = nonblank_slices(s, spans.drop_first());
        if is_blank(w) {
            rest
        } else {
            seq![w] + rest
        }
    }
}

/// The windows whose text is not blank, in order: where the returned chunks lie.
pub open spec fn kept_spans(s: Seq<char>, spans: Seq<(int, int)>) -> Seq<(int, int)>
    decreases spans.len(),
{
    if spans.len() == 0 {
        Seq::empty()
    } else {
        let rest = kept_spans(s, spans.drop_first());
        if is_blank(s.subrange(spans[0].0, spans[0].1)) {
            rest
        } else {
            seq![spans[0]] + rest
        }
    }
}

/// Position `i` lies inside one of the windows.
pub open spec fn covered(w: Seq<(int, int)>, i: int) -> bool {
    exists|k: int| 0 <= k < w.len() && w[k].0 <= i < #[trigger] w[k].1
}

/// What chunking `s` with this window size and overlap returns.
pub open spec fn chunks(s: Seq<char>, size: nat, overlap: nat) -> Seq<Seq<char>> {
    nonblank_slices(s, windows(s, size, overlap))
}

/// The views of a vector of strings.
pub open spec fn views(v: Seq<String>) -> Seq<Seq<char>> {
    v.map_values(|c: String| c@)
}

/// Splits `text` into windows of `chunk_size` characters, each starting
/// `chunk_size - overlap` characters after the previous one, and keeps the
/// windows that are not blank. Refuses an overlap that is not smaller than
/// the window.
pub fn chunk_text(text: &str, chunk_size: usize, overlap: usize) -> (r: Result<
    Vec<String>,
    ChunkError,
>)
    ensures
        overlap >= chunk_size ==> r == Err::<Vec<String>, ChunkError>(
            ChunkError::InvalidConfiguration { chunk_size, overlap },
        ),
        overlap < chunk_size ==> (r matches Ok(v) && views(v@) == chunks(
            text@,
            chunk_size as nat,
            overlap as nat,
        )),
{
    if overlap >= chunk_size {
        return Err(ChunkError::InvalidConfiguration { chunk_size, overlap });
    }
    let chars = chars_of(text);
    let len = chars.len();
    let step = chunk_size - overlap;
    let ghost s = chars@;
    let ghost all = spans_from(len as int, chunk_size as int, step as int, 0);
    let mut out: Vec<String> = Vec::new();
    let mut start: usize = 0;
    while start < len
        invariant
            s == chars@,
            s == text@,
            len == s.len(),
            0 < step <= chunk_size,
            step == chunk_size - overlap,
            all == windows(s, chunk_size as nat, overlap as nat),
            start <= len,
            views(out@) + nonblank_slices(
                s,
                spans_from(len as int, chunk_size as int, step as int, start as int),
            ) == nonblank_slices(s, all),
        decreases len - start,
    {
        let end: usize = if chunk_size < len - start {
            start + chunk_size
        } else {
            len
        };
        let ghost here = spans_from(len as int, chunk_size as int, step as int, start as int);
        let ghost next_start: int = if end == len {
            len as int
        } else {
            start + step
        };
        let ghost rest = spans_from(len as int, chunk_size as int, step as int, next_start);
        assert(here == seq![(start as int, end as int)] + rest);
        assert(here.drop_first() =~= rest);
        let blank = is_blank_range(&chars, start, end);
        if !blank {
            let piece = copy_range(&chars, start, end);
            let w = string_of(piece.as_slice());
            let ghost before = views(out@);
            out.push(w);
            assert(views(out@) =~= before.push(s.subrange(start as int, end as int)));
            assert(views(out@) + nonblank_slices(s, rest) =~= before + nonblank_slices(
                s,
                here,
            ));
        }
        if end == len {
            start = len;
        } else {
            start = start + step;
        }
    }
    assert(views(out@) + Seq::<Seq<char>>::empty() =~= views(out@));
    Ok(out)
}

/// The windows that start at `start`, as laid out by `spans_from`: they lie
/// inside the text, begin at `start`, end at the end of the text, each but the
/// last is a full window, each begins `step` after the previous one, and
/// together they cover every position from `start` on.
proof fn lemma_spans_from(len: int, size: int, step: int, start: int)
    requires
        0 < step <= size,
        0 <= start < len,
    ensures
        ({
            let w = spans_from(len, size, step, start);
            &&& w.len() > 0
            &&& w[0].0 == start
            &&& w.last().1 == len
            &&& forall|k: int| 0 <= k < w.len() ==> start <= #[trigger] w[k].0 < w[k].1 <= len
            &&& forall|k: int|
                0 <= k < w.len() - 1 ==> #[trigger] w[k].1 == w[k].0 + size && w[k + 1].0
                    == w[k].0 + step
            &&& forall|i: int| start <= i < len ==> #[trigger] covered(w, i)
        }),
    decreases len - start,
{
    let w = spans_from(len, size, step, start);
    let end = if start + size < len {
        start + size
    } else {
        len
    };
    if end == len {
        assert(w =~= seq![(start, end)]);
        assert forall|i: int| start <= i < len implies #[trigger] covered(w, i) by {
            assert(w[0].0 <= i < w[0].1);
        }
    } else {
        let rest = spans_from(len, size, step, start + step);
        lemma_spans_from(len, size, step, start + step);
        assert(w == seq![(start, end)] + rest);
        assert forall|k: int| 0 <= k < w.len() implies start <= #[trigger] w[k].0 < w[k].1
            <= len by {
            if k > 0 {
                assert(w[k] == rest[k - 1]);
            }
        }
        assert forall|k: int| 0 <= k < w.len() - 1 implies #[trigger] w[k].1 == w[k].0 + size
            && w[k + 1].0 == w[k].0 + step by {
            if k > 0 {
                assert(w[k] == rest[k - 1]);
                assert(w[k + 1] == rest[k]);
            }
        }
        assert forall|i: int| start <= i < len implies #[trigger] covered(w, i) by {
            if i < start + step {
                assert(w[0].0 <= i < w[0].1);
            } else {
                assert(covered(rest, i));
                let k = choose|k: int| 0 <= k < rest.len() && rest[k].0 <= i < #[trigger] rest[k].1;
                assert(w[k + 1] == rest[k]);
            }
        }
    }
}

/// Every window whose text is not blank has that text among the slices kept.
proof fn lemma_nonblank_kept(s: Seq<char>, spans: Seq<(int, int)>, k: int)
    requires
        0 <= k < spans.len(),
        !is_blank(s.subrange(spans[k].0, spans[k].1)),
    ensures
        nonblank_slices(s, spans).contains(s.subrange(spans[k].0, spans[k].1)),
    decreases spans.len(),
{
    let w = s.subrange(spans[0].0, spans[0].1);
    let rest = nonblank_slices(s, spans.drop_first());
    if k == 0 {
        assert((seq![w] + rest)[0] == w);
    } else {
        lemma_nonblank_kept(s, spans.drop_first(), k - 1);
        assert(spans.drop_first()[k - 1] == spans[k]);
        if !is_blank(w) {
            let j = choose|j: int| 0 <= j < rest.len() && rest[j] == s.subrange(spans[k].0, spans[k].1);
            assert((seq![w] + rest)[j + 1] == rest[j]);
        }
    }
}

/// Every slice kept is not blank.
proof fn lemma_slices_nonblank(s: Seq<char>, spans: Seq<(int, int)>)
    ensures
        forall|j: int| 0 <= j < nonblank_slices(s, spans).len() ==> !is_blank(
            #[trigger] nonblank_slices(s, spans)[j],
        ),
    decreases spans.len(),
{
    if spans.len() > 0 {
        let w = s.subrange(spans[0].0, spans[0].1);
        let rest = nonblank_slices(s, spans.drop_first());
        lemma_slices_nonblank(s, spans.drop_first());
        if !is_blank(w) {
            assert forall|j: int| 0 <= j < (seq![w] + rest).len() implies !is_blank(
                #[trigger] (seq![w] + rest)[j],
            ) by {
                if j > 0 {
                    assert((seq![w] + rest)[j] == rest[j - 1]);
                }
            }
        }
    }
}

/// Chunking covers the text: with `0 <= overlap < size`, the windows start at
/// the first character and end at the last; every window but the last is
/// `size` long and shares exactly `overlap` characters with the next, so no
/// character falls between windows; every character lies in some window, and
/// every character that is not whitespace lies in a window whose text is
/// returned. No returned chunk is blank.
pub proof fn lemma_chunks_cover(s: Seq<char>, size: nat, overlap: nat)
    requires
        overlap < size,
    ensures
        ({
            let w = windows(s, size, overlap);
            let c = chunks(s, size, overlap);
            &&& s.len() > 0 ==> w.len() > 0 && w[0].0 == 0 && w.last().1 == s.len()
            &&& forall|k: int| 0 <= k < w.len() ==> 0 <= #[trigger] w[k].0 < w[k].1 <= s.len()
            &&& forall|k: int|
                0 <= k < w.len() - 1 ==> #[trigger] w[k].1 == w[k].0 + size && w[k].1 - w[k
                    + 1].0 == overlap
            &&& forall|i: int| 0 <= i < s.len() ==> #[trigger] covered(w, i)
            &&& forall|i: int|
                0 <= i < s.len() && !is_ws(#[trigger] s[i]) ==> exists|k: int|
                    0 <= k < w.len() && w[k].0 <= i < w[k].1 && c.contains(
                        #[trigger] s.subrange(w[k].0, w[k].1),
                    )
            &&& forall|j: int| 0 <= j < c.len() ==> !is_blank(#[trigger] c[j])
        }),
{
    let w = windows(s, size, overlap);
    let step = size - overlap;
    lemma_slices_nonblank(s, w);
    if s.len() > 0 {
        lemma_spans_from(s.len() as int, size as int, step, 0);
        assert forall|i: int| 0 <= i < s.len() && !is_ws(#[trigger] s[i]) implies exists|k: int|
            0 <= k < w.len() && w[k].0 <= i < w[k].1 && chunks(s, size, overlap).contains(
                #[trigger] s.subrange(w[k].0, w[k].1),
            ) by {
            assert(covered(w, i));
            let k = choose|k: int| 0 <= k < w.len() && w[k].0 <= i < #[trigger] w[k].1;
            let sl = s.subrange(w[k].0, w[k].1);
            assert(sl[i - w[k].0] == s[i]);
            lemma_nonblank_kept(s, w, k);
        }
    } else {
        assert(w =~= Seq::<(int, int)>::empty());
    }
}

/// The kept slices are the text of the kept spans, and every span whose text
/// is not blank is kept.
proof fn lemma_kept_spans(s: Seq<char>, spans: Seq<(int, int)>)
    ensures
        nonblank_slices(s, spans) == kept_spans(s, spans).map_values(
            |p: (int, int)| s.subrange(p.0, p.1),
        ),
        forall|k: int|
            0 <= k < spans.len() && !is_blank(s.subrange(spans[k].0, spans[k].1)) ==> kept_spans(
                s,
                spans,
            ).contains(#[trigger] spans[k]),
    decreases spans.len(),
{
    if spans.len() > 0 {
        let rest = kept_spans(s, spans.drop_first());
        lemma_kept_spans(s, spans.drop_first());
        let f = |p: (int, int)| s.subrange(p.0, p.1);
        if !is_blank(s.subrange(spans[0].0, spans[0].1)) {
            assert((seq![spans[0]] + rest).map_values(f) =~= seq![f(spans[0])] + rest.map_values(f));
        }
        assert forall|k: int|
            0 <= k < spans.len() && !is_blank(s.subrange(spans[k].0, spans[k].1)) implies kept_spans(
            s,
            spans,
        ).contains(#[trigger] spans[k]) by {
            if k == 0 {
                assert(kept_spans(s, spans)[0] == spans[0]);
            } else {
                assert(spans.drop_first()[k - 1] == spans[k]);
                assert(rest.contains(spans[k]));
                let j = choose|j: int| 0 <= j < rest.len() && rest[j] == spans[k];
                if !is_blank(s.subrange(spans[0].0, spans[0].1)) {
                    assert(kept_spans(s, spans)[j + 1] == rest[j]);
                }
            }
        }
    } else {
        assert(kept_spans(s, spans).map_values(|p: (int, int)| s.subrange(p.0, p.1)) =~= Seq::<
            Seq<char>,
        >::empty());
    }
}

/// The returned chunks are the text of the kept spans, and only whitespace
/// lies outside them: every character that is not whitespace is inside a
/// kept span, so neither the edges of the text nor the gaps between kept
/// chunks hold anything but whitespace.
pub proof fn lemma_chunks_are_kept_spans(s: Seq<char>, size: nat, overlap: nat)
    requires
        overlap < size,
    ensures
        chunks(s, size, overlap) == kept_spans(s, windows(s, size, overlap)).map_values(
            |p: (int, int)| s.subrange(p.0, p.1),
        ),
        forall|i: int|
            0 <= i < s.len() && !is_ws(#[trigger] s[i]) ==> covered(
                kept_spans(s, windows(s, size, overlap)),
                i,
            ),
{
    let w = windows(s, size, overlap);
    let kept = kept_spans(s, w);
    lemma_kept_spans(s, w);
    lemma_chunks_cover(s, size, overlap);
    assert forall|i: int| 0 <= i < s.len() && !is_ws(#[trigger] s[i]) implies covered(kept, i) by {
        assert(covered(w, i));
        let k = choose|k: int| 0 <= k < w.len() && w[k].0 <= i < #[trigger] w[k].1;
        let sl = s.subrange(w[k].0, w[k].1);
        assert(sl[i - w[k].0] == s[i]);
        assert(!is_blank(sl));
        assert(kept.contains(w[k]));
        let j = choose|j: int| 0 <= j < kept.len() && kept[j] == w[k];
        assert(kept[j].0 <= i < kept[j].1);
    }
}

} // verus!
