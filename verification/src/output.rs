//! Text formatting rules of the command line output: CSV fields, column
//! truncation, snippet edge trimming and shell quoting.

use vstd::prelude::*;
use crate::text::{trim, trim_char, to_chars, from_chars, trim_chars, slice_to_vec};

verus! {

/// Output format of list commands.
#[derive(Clone, Copy, Debug, PartialEq, Eq, Structural)]
pub enum ListFormat {
    /// Human-readable table
    Plain,
    /// CSV with header row
    Csv,
    /// Pretty-printed JSON array
    Json,
}

/// `s` with every `"` doubled.
pub open spec fn double_quotes(s: Seq<char>) -> Seq<char>
    decreases s.len(),
{
    if s.len() == 0 {
        seq![]
    } else if s.last() == '"' {
        double_quotes(s.drop_last()) + seq!['"', '"']
    } else {
        double_quotes(s.drop_last()).push(s.last())
    }
}

/// Whether `s` holds a character for which `special` holds.
pub open spec fn has_char_where(s: Seq<char>, with_cr: bool) -> bool {
    exists|i: int|
        0 <= i < s.len() && (#[trigger] s[i] == ',' || s[i] == '"' || s[i] == '\n' || (with_cr
            && s[i] == '\r'))
}

/// A CSV field: quoted, with inner quotes doubled, when it holds a comma, a
/// quote or a line break (`\r` counts when `with_cr`); otherwise as it is.
pub open spec fn csv_field(s: Seq<char>, with_cr: bool) -> Seq<char> {
    if has_char_where(s, with_cr) {
        seq!['"'] + double_quotes(s) + seq!['"']
    } else {
        s
    }
}

fn csv_escape_with(value: &str, with_cr: bool) -> (r: String)
    ensures
        r@ == csv_field(value@, with_cr),
{
    let v = to_chars(value);
    let mut special = false;
    let mut doubled: Vec<char> = Vec::new();
    let mut i: usize = 0;
    while i < v.len()
        invariant
            i <= v@.len(),
            v@ == value@,
            doubled@ == double_quotes(v@.subrange(0, i as int)),
            special == exists|k: int|
                0 <= k < i && (#[trigger] v@[k] == ',' || v@[k] == '"' || v@[k] == '\n' || (
                with_cr && v@[k] == '\r')),
        decreases v@.len() - i,
    {
        let c = v[i];
        let ghost pre = v@.subrange(0, i + 1);
        assert(pre.drop_last() == v@.subrange(0, i as int));
        if c == ',' || c == '"' || c == '\n' || (with_cr && c == '\r') {
            special = true;
        }
        if c == '"' {
            doubled.push('"');
            doubled.push('"');
        } else {
            doubled.push(c);
        }
        i += 1;
    }
    assert(v@.subrange(0, v@.len() as int) == v@);
    if special {
        let mut out: Vec<char> = Vec::new();
        out.push('"');
        crate::text::push_all(&mut out, &doubled);
        out.push('"');
        from_chars(&out)
    } else {
        from_chars(&v)
    }
}

/// CSV field for task listings (commas, quotes, `\n` and `\r` force quoting).
pub fn csv_escape(value: &str) -> (r: String)
    ensures
        r@ == csv_field(value@, true),
{
    csv_escape_with(value, true)
}

/// CSV field for wiki page, root and search listings (commas, quotes and `\n`
/// force quoting).
pub fn csv_escape_wiki(value: &str) -> (r: String)
    ensures
        r@ == csv_field(value@, false),
{
    csv_escape_with(value, false)
}

/// `s` cut to at most `max` characters: when longer, its first `max - 1`
/// characters and an ellipsis.
pub open spec fn truncated(s: Seq<char>, max: nat) -> Seq<char> {
    if s.len() <= max {
        s
    } else {
        s.subrange(0, if max >= 1 { max - 1 } else { 0 }) + seq!['\u{2026}']
    }
}

/// Cuts `value` to at most `max` characters for a table column.
pub fn truncate(value: &str, max: usize) -> (r: String)
    ensures
        r@ == truncated(value@, max as nat),
{
    let v = to_chars(value);
    if v.len() <= max {
        return from_chars(&v);
    }
    let keep = if max >= 1 {
        max - 1
    } else {
        0
    };
    let mut out = slice_to_vec(&v, 0, keep);
    out.push('\u{2026}');
    from_chars(&out)
}

/// A snippet edge without its ellipses and surrounding whitespace.
pub open spec fn trimmed_edges(s: Seq<char>) -> Seq<char> {
    trim(trim_char(s, '\u{2026}'))
}

/// Strips ellipses and whitespace from a snippet edge.
pub fn trim_edges(value: &str) -> (r: String)
    ensures
        r@ == trimmed_edges(value@),
{
    let v = to_chars(value);
    let n = v.len();
    let e = '\u{2026}';
    let mut lo: usize = 0;
    while lo < n && v[lo] == e
        invariant
            lo <= n == v@.len(),
            forall|j: int| 0 <= j < lo ==> #[trigger] v@[j] == e,
        decreases n - lo,
    {
        lo += 1;
    }
    let mut hi = n;
    while hi > lo && v[hi - 1] == e
        invariant
            lo <= hi <= n == v@.len(),
            forall|j: int| hi <= j < n ==> #[trigger] v@[j] == e,
        decreases hi,
    {
        hi -= 1;
    }
    proof {
        crate::text::lemma_trim_start_char_at(v@, e, lo as int);
        let t = v@.subrange(lo as int, n as int);
        assert forall|j: int| hi - lo <= j < t.len() implies #[trigger] t[j] == e by {
            assert(t[j] == v@[j + lo]);
        }
        if hi > lo {
            assert(t[hi - lo - 1] == v@[hi - 1]);
        }
        crate::text::lemma_trim_end_char_at(t, e, hi - lo);
        assert(t.subrange(0, hi - lo) == v@.subrange(lo as int, hi as int));
    }
    let core = slice_to_vec(&v, lo, hi);
    from_chars(&trim_chars(&core))
}

/// Characters that need no shell quoting.
pub open spec fn shell_safe(c: char) -> bool {
    ('a' <= c && c <= 'z') || ('A' <= c && c <= 'Z') || ('0' <= c && c <= '9') || c == '-' || c
        == '_' || c == '.' || c == '/' || c == '~'
}

/// `s` with every `'` written as `'\''`.
pub open spec fn escape_single_quotes(s: Seq<char>) -> Seq<char>
    decreases s.len(),
{
    if s.len() == 0 {
        seq![]
    } else if s.last() == '\'' {
        escape_single_quotes(s.drop_last()) + seq!['\'', '\\', '\'', '\'']
    } else {
        escape_single_quotes(s.drop_last()).push(s.last())
    }
}

/// POSIX shell quoting: `''` for the empty string, the string itself when
/// every character is safe, otherwise single-quoted with inner quotes escaped.
pub open spec fn shell_quoted(s: Seq<char>) -> Seq<char> {
    if s.len() == 0 {
        seq!['\'', '\'']
    } else if forall|i: int| 0 <= i < s.len() ==> shell_safe(#[trigger] s[i]) {
        s
    } else {
        seq!['\''] + escape_single_quotes(s) + seq!['\'']
    }
}

/// Quotes `s` for a POSIX shell command line.
pub fn shell_quote(s: &str) -> (r: String)
    ensures
        r@ == shell_quoted(s@),
{
    let v = to_chars(s);
    if v.len() == 0 {
        let mut out: Vec<char> = Vec::new();
        out.push('\'');
        out.push('\'');
        return from_chars(&out);
    }
    let mut all_safe = true;
    let mut esc: Vec<char> = Vec::new();
    let mut i: usize = 0;
    while i < v.len()
        invariant
            i <= v@.len(),
            v@ == s@,
            esc@ == escape_single_quotes(v@.subrange(0, i as int)),
            all_safe == forall|k: int| 0 <= k < i ==> shell_safe(#[trigger] v@[k]),
        decreases v@.len() - i,
    {
        let c = v[i];
        let ghost pre = v@.subrange(0, i + 1);
        assert(pre.drop_last() == v@.subrange(0, i as int));
        let safe = ('a' <= c && c <= 'z') || ('A' <= c && c <= 'Z') || ('0' <= c && c <= '9')
            || c == '-' || c == '_' || c == '.' || c == '/' || c == '~';
        if !safe {
            all_safe = false;
        }
        if c == '\'' {
            esc.push('\'');
            esc.push('\\');
            esc.push('\'');
            esc.push('\'');
        } else {
            esc.push(c);
        }
        i += 1;
    }
    assert(v@.subrange(0, v@.len() as int) == v@);
    if all_safe {
        return from_chars(&v);
    }
    let mut out: Vec<char> = Vec::new();
    out.push('\'');
    crate::text::push_all(&mut out, &esc);
    out.push('\'');
    from_chars(&out)
}

} // verus!
