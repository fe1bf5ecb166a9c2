//! Chat logs as a source of text: each `[name] [time] message` line is
//! shortened to `name: message`, other lines are kept.

use vstd::prelude::*;
use crate::text::{chars_of, string_of, push_text};
use crate::models::string_views;

verus! {

/// A chat line: the speaker, the time, and the message.
pub const CHAT_LINE: &'static str = r"\[(.*?)\] \[(.*?)\] (.*)";

/// What `regex::Regex::new(pattern)` and then `captures(haystack)` give: the
/// text of each group of the first match, group 0 being the whole match and a
/// group that took no part being empty; none when nothing matches or the
/// pattern does not compile.
pub uninterp spec fn regex_captures(pattern: Seq<char>, haystack: Seq<char>) -> Option<
    Seq<Seq<char>>,
>;

/// Relies on `regex::Regex::new` and `regex::Regex::captures`: the groups of
/// the first match of `pattern` in `haystack`. The result depends on the two
/// strings alone.
#[verifier::external_body]
fn first_captures(pattern: &str, haystack: &str) -> (r: Option<Vec<String>>)
    ensures
        match r {
            Some(v) => regex_captures(pattern@, haystack@) == Some(string_views(v@)),
            None => regex_captures(pattern@, haystack@) is None,
        },
{
    match regex::Regex::new(pattern) {
        Ok(re) => re.captures(haystack).map(
            |c| c.iter().map(|m| m.map(|x| x.as_str().to_string()).unwrap_or_default()).collect(),
        ),
        Err(_) => None,
    }
}

/// `line` without the `\r` of a `\r\n` ending.
pub open spec fn strip_cr(line: Seq<char>) -> Seq<char> {
    if line.len() > 0 && line.last() == '\r' {
        line.drop_last()
    } else {
        line
    }
}

/// The lines of `s` after the ones in `done` and the partial line `cur`, as
/// `str::lines` splits them: at each `\n` (a `\r` before it dropped); a final
/// line ending is optional.
pub open spec fn lines_acc(s: Seq<char>, cur: Seq<char>, done: Seq<Seq<char>>) -> Seq<Seq<char>>
    decreases s.len(),
{
    if s.len() == 0 {
        if cur.len() == 0 {
            done
        } else {
            done.push(cur)
        }
    } else if s[0] == '\n' {
        lines_acc(s.drop_first(), Seq::empty(), done.push(strip_cr(cur)))
    } else {
        lines_acc(s.drop_first(), cur.push(s[0]), done)
    }
}

pub open spec fn lines_of(s: Seq<char>) -> Seq<Seq<char>> {
    lines_acc(s, Seq::empty(), Seq::empty())
}

/// A chat line shortened to `name: message`; any other line as it is.
pub open spec fn chat_line(line: Seq<char>) -> Seq<char> {
    match regex_captures(CHAT_LINE@, line) {
        Some(groups) => if groups.len() >= 4 {
            groups[1] + seq![':', ' '] + groups[3]
        } else {
            line
        },
        None => line,
    }
}

/// The lines joined by newlines.
pub open spec fn joined(lines: Seq<Seq<char>>) -> Seq<char>
    decreases lines.len(),
{
    if lines.len() == 0 {
        Seq::empty()
    } else if lines.len() == 1 {
        lines[0]
    } else {
        joined(lines.drop_last()) + seq!['\n'] + lines.last()
    }
}

/// What a chat log becomes: each line shortened, joined by newlines.
pub open spec fn cleaned_chat(s: Seq<char>) -> Seq<char> {
    joined(lines_of(s).map_values(|l: Seq<char>| chat_line(l)))
}

/// One line of a chat log, shortened to `name: message` when it is a chat line.
pub fn clean_chat_line(line: &str) -> (r: String)
    ensures
        r@ == chat_line(line@),
{
    match first_captures(CHAT_LINE, line) {
        Some(groups) => {
            if groups.len() >= 4 {
                let mut v: Vec<char> = Vec::new();
                push_text(&mut v, groups[1].as_str());
                v.push(':');
                v.push(' ');
                push_text(&mut v, groups[3].as_str());
                assert(string_views(groups@)[1] == groups@[1]@);
                assert(string_views(groups@)[3] == groups@[3]@);
                string_of(v.as_slice())
            } else {
                String::from_str(line)
            }
        },
        None => String::from_str(line),
    }
}

/// The lines of a text, as `str::lines` splits them.
pub fn split_lines(s: &str) -> (r: Vec<String>)
    ensures
        string_views(r@) == lines_of(s@),
{
    let v = chars_of(s);
    let mut done: Vec<String> = Vec::new();
    let mut cur: Vec<char> = Vec::new();
    let mut i: usize = 0;
    assert(v@.skip(0) =~= v@);
    assert(string_views(done@) =~= Seq::<Seq<char>>::empty());
    while i < v.len()
        invariant
            v@ == s@,
            i <= v@.len(),
            lines_acc(v@.skip(i as int), cur@, string_views(done@)) == lines_of(s@),
        decreases v.len() - i,
    {
        let c = v[i];
        assert(v@.skip(i as int)[0] == c);
        assert(v@.skip(i as int).drop_first() =~= v@.skip(i + 1));
        if c == '\n' {
            let n = cur.len();
            let end = if n > 0 && cur[n - 1] == '\r' {
                n - 1
            } else {
                n
            };
            let line = crate::text::copy_range(&cur, 0, end);
            assert(line@ == strip_cr(cur@)) by {
                if n > 0 && cur@[n - 1] == '\r' {
                    assert(cur@.subrange(0, end as int) =~= cur@.drop_last());
                } else {
                    assert(cur@.subrange(0, end as int) =~= cur@);
                }
            }
            let ghost before = string_views(done@);
            done.push(string_of(line.as_slice()));
            assert(string_views(done@) =~= before.push(strip_cr(cur@)));
            cur = Vec::new();
            assert(cur@ =~= Seq::<char>::empty());
        } else {
            cur.push(c);
        }
        i = i + 1;
    }
    assert(v@.skip(i as int).len() == 0);
    if cur.len() > 0 {
        let ghost before = string_views(done@);
        done.push(string_of(cur.as_slice()));
        assert(string_views(done@) =~= before.push(cur@));
    }
    done
}

/// A chat log with each `[name] [time] message` line shortened to
/// `name: message`, other lines kept, lines joined by newlines.
pub fn clean_chat_log(content: &str) -> (r: String)
    ensures
        r@ == cleaned_chat(content@),
{
    let lines = split_lines(content);
    let ghost ls = lines_of(content@).map_values(|l: Seq<char>| chat_line(l));
    let mut out: Vec<char> = Vec::new();
    let mut i: usize = 0;
    assert(ls.take(0) =~= Seq::<Seq<char>>::empty());
    while i < lines.len()
        invariant
            string_views(lines@) == lines_of(content@),
            ls == lines_of(content@).map_values(|l: Seq<char>| chat_line(l)),
            i <= lines@.len(),
            out@ == joined(ls.take(i as int)),
        decreases lines.len() - i,
    {
        let line = clean_chat_line(lines[i].as_str());
        assert(string_views(lines@)[i as int] == lines@[i as int]@);
        assert(ls[i as int] == line@);
        assert(ls.take(i + 1).drop_last() =~= ls.take(i as int));
        assert(ls.take(i + 1).last() == line@);
        if i > 0 {
            out.push('\n');
        }
        push_text(&mut out, line.as_str());
        if i == 0 {
            assert(out@ =~= joined(ls.take(1)));
        }
        i = i + 1;
    }
    assert(ls.take(i as int) =~= ls);
    string_of(out.as_slice())
}

} // verus!
