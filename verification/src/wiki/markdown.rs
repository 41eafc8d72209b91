//! Markdown clean-up for search snippet display: links and images keep their
//! label, inline code keeps its text, heading / list / quote markers and bold or
//! italic markers are dropped, and whitespace is collapsed.

use vstd::prelude::*;
use crate::text::{
    is_ws, trim, trim_end, trim_end_char, trim_start, starts_with, char_is_ws, skip_ws,
    push_range, push_all, lemma_trim_lens, lemma_trim_char_lens, lemma_trim_start_at,
    lemma_trim_end_at, lemma_trim_end_char_at, trim_chars, to_chars, from_chars,
};

verus! {

/// Whether index `i` of `c` starts a line.
pub open spec fn line_start(c: Seq<char>, i: int) -> bool {
    i == 0 || (0 < i <= c.len() && c[i - 1] == '\n')
}

/// Index of the `cl` that closes an `op` when scanning from `i` at nesting
/// depth `d` (for `[`/`]` and `(`/`)`).
pub open spec fn close_of(c: Seq<char>, i: int, d: nat, op: char, cl: char) -> Option<int>
    decreases c.len() - i,
{
    if i < 0 || i >= c.len() {
        None
    } else if c[i] == op {
        close_of(c, i + 1, d + 1, op, cl)
    } else if c[i] == cl {
        if d <= 1 {
            Some(i)
        } else {
            close_of(c, i + 1, (d - 1) as nat, op, cl)
        }
    } else {
        close_of(c, i + 1, d, op, cl)
    }
}

/// First index at or after `i` that holds `ch`.
pub open spec fn find_from(c: Seq<char>, i: int, ch: char) -> Option<int>
    decreases c.len() - i,
{
    if i < 0 || i >= c.len() {
        None
    } else if c[i] == ch {
        Some(i)
    } else {
        find_from(c, i + 1, ch)
    }
}

pub proof fn lemma_close_of_range(c: Seq<char>, i: int, d: nat, op: char, cl: char)
    ensures
        close_of(c, i, d, op, cl) matches Some(k) ==> i <= k < c.len() && c[k] == cl,
    decreases c.len() - i,
{
    if 0 <= i < c.len() {
        if c[i] == op {
            lemma_close_of_range(c, i + 1, d + 1, op, cl);
        } else if c[i] == cl {
            if d > 1 {
                lemma_close_of_range(c, i + 1, (d - 1) as nat, op, cl);
            }
        } else {
            lemma_close_of_range(c, i + 1, d, op, cl);
        }
    }
}

pub proof fn lemma_find_from_range(c: Seq<char>, i: int, ch: char)
    ensures
        find_from(c, i, ch) matches Some(k) ==> i <= k < c.len() && c[k] == ch,
        find_from(c, i, ch) is None && 0 <= i ==> forall|j: int| i <= j < c.len() ==> c[j] != ch,
    decreases c.len() - i,
{
    if 0 <= i < c.len() && c[i] != ch {
        lemma_find_from_range(c, i + 1, ch);
    }
}

/// A markdown link or image reference starting at the `[` at `open`:
/// `[label](dest)` or `[label][ref]`, giving the label and the index just
/// past the construct. A bare `[text]` gives nothing.
pub open spec fn linkish(c: Seq<char>, open: int) -> Option<(Seq<char>, int)> {
    if !(0 <= open < c.len() && c[open] == '[') {
        None
    } else {
        match close_of(c, open + 1, 1, '[', ']') {
            None => None,
            Some(close) => {
                let label = c.subrange(open + 1, close);
                let i = close + 1;
                if i < c.len() && c[i] == '(' {
                    match close_of(c, i + 1, 1, '(', ')') {
                        Some(p) => Some((label, p + 1)),
                        None => None,
                    }
                } else if i < c.len() && c[i] == '[' {
                    match find_from(c, i + 1, ']') {
                        Some(q) => Some((label, q + 1)),
                        None => None,
                    }
                } else {
                    None
                }
            },
        }
    }
}

pub proof fn lemma_linkish_next(c: Seq<char>, open: int)
    ensures
        linkish(c, open) matches Some((label, next)) ==> open < next <= c.len(),
{
    if 0 <= open < c.len() && c[open] == '[' {
        lemma_close_of_range(c, open + 1, 1, '[', ']');
        if let Some(close) = close_of(c, open + 1, 1, '[', ']') {
            lemma_close_of_range(c, close + 2, 1, '(', ')');
            lemma_find_from_range(c, close + 2, ']');
        }
    }
}

/// End of the run of backticks that starts at `i`.
pub open spec fn tick_run_end(c: Seq<char>, i: int) -> int
    decreases c.len() - i,
{
    if 0 <= i < c.len() && c[i] == '`' {
        tick_run_end(c, i + 1)
    } else {
        i
    }
}

pub proof fn lemma_tick_run_end(c: Seq<char>, i: int)
    requires
        0 <= i <= c.len(),
    ensures
        i <= tick_run_end(c, i) <= c.len(),
        forall|j: int| i <= j < tick_run_end(c, i) ==> c[j] == '`',
        tick_run_end(c, i) < c.len() ==> c[tick_run_end(c, i)] != '`',
    decreases c.len() - i,
{
    if i < c.len() && c[i] == '`' {
        lemma_tick_run_end(c, i + 1);
    }
}

/// The first run of exactly `count` backticks at or after `j`, as
/// `(start, end)`.
pub open spec fn closing_ticks(c: Seq<char>, j: int, count: int) -> Option<(int, int)>
    decreases c.len() - j,
{
    if j < 0 || j >= c.len() {
        None
    } else if c[j] == '`' {
        let k = tick_run_end(c, j);
        if k - j == count {
            Some((j, k))
        } else {
            proof {
                lemma_tick_run_end(c, j);
            }
            closing_ticks(c, k, count)
        }
    } else {
        closing_ticks(c, j + 1, count)
    }
}

pub proof fn lemma_closing_ticks_range(c: Seq<char>, j: int, count: int)
    requires
        0 <= j,
    ensures
        closing_ticks(c, j, count) matches Some((s, e)) ==> j <= s < e <= c.len(),
    decreases c.len() - j,
{
    if j < c.len() {
        lemma_tick_run_end(c, j);
        if c[j] == '`' {
            let k = tick_run_end(c, j);
            if k - j != count {
                lemma_closing_ticks_range(c, k, count);
            }
        } else {
            lemma_closing_ticks_range(c, j + 1, count);
        }
    }
}

/// End of the `#` run of at most six characters that starts at `i`, scanning
/// from `j`.
pub open spec fn hash_run_end(c: Seq<char>, i: int, j: int) -> int
    decreases c.len() - j,
{
    if 0 <= j < c.len() && c[j] == '#' && j - i < 6 {
        hash_run_end(c, i, j + 1)
    } else {
        j
    }
}

pub proof fn lemma_hash_run_end(c: Seq<char>, i: int, j: int)
    requires
        0 <= j <= c.len(),
    ensures
        j <= hash_run_end(c, i, j) <= c.len(),
    decreases c.len() - j,
{
    if j < c.len() && c[j] == '#' && j - i < 6 {
        lemma_hash_run_end(c, i, j + 1);
    }
}

/// First index at or after `i` that is not a plain space.
pub open spec fn skip_spaces(c: Seq<char>, i: int) -> int
    decreases c.len() - i,
{
    if 0 <= i < c.len() && c[i] == ' ' {
        skip_spaces(c, i + 1)
    } else {
        i
    }
}

pub proof fn lemma_skip_spaces(c: Seq<char>, i: int)
    requires
        0 <= i <= c.len(),
    ensures
        i <= skip_spaces(c, i) <= c.len(),
    decreases c.len() - i,
{
    if i < c.len() && c[i] == ' ' {
        lemma_skip_spaces(c, i + 1);
    }
}

/// Whether a heading marker (`#` to `######` then whitespace) starts at `i`.
pub open spec fn heading_at(c: Seq<char>, i: int) -> bool {
    let j = hash_run_end(c, i, i);
    c[i] == '#' && line_start(c, i) && j > i && j < c.len() && is_ws(c[j])
}

/// The display text produced from `c[i..]` by the markdown clean-up scan
/// (before debris removal and whitespace collapsing).
pub open spec fn strip_scan(c: Seq<char>, i: int) -> Seq<char>
    decreases c.len() - i,
{
    if i < 0 || i >= c.len() {
        seq![]
    } else {
        proof {
            lemma_linkish_next(c, i);
            lemma_linkish_next(c, i + 1);
        }
        if c[i] == '!' && i + 1 < c.len() && c[i + 1] == '[' && linkish(c, i + 1) is Some {
            let (label, next) = linkish(c, i + 1).unwrap();
            label + strip_scan(c, next)
        } else if c[i] == '[' && linkish(c, i) is Some {
            let (label, next) = linkish(c, i).unwrap();
            label + strip_scan(c, next)
        } else if c[i] == '`' {
            proof {
                lemma_tick_run_end(c, i);
            }
            let k = tick_run_end(c, i);
            match closing_ticks(c, k, k - i) {
                Some((s, e)) => {
                    proof {
                        lemma_closing_ticks_range(c, k, k - i);
                    }
                    c.subrange(k, s) + strip_scan(c, e)
                },
                None => seq!['`'] + strip_scan(c, i + 1),
            }
        } else if heading_at(c, i) {
            proof {
                lemma_hash_run_end(c, i, i);
                lemma_skip_spaces(c, hash_run_end(c, i, i));
            }
            strip_scan(c, skip_spaces(c, hash_run_end(c, i, i)))
        } else if line_start(c, i) && c[i] == '>' && i + 1 < c.len() && is_ws(c[i + 1]) {
            proof {
                lemma_skip_spaces(c, i + 1);
            }
            strip_scan(c, skip_spaces(c, i + 1))
        } else if line_start(c, i) && (c[i] == '-' || c[i] == '*' || c[i] == '+') && i + 1
            < c.len() && c[i + 1] == ' ' {
            strip_scan(c, i + 2)
        } else if (c[i] == '*' || c[i] == '_') && i + 1 < c.len() && c[i + 1] == c[i] {
            strip_scan(c, i + 2)
        } else if c[i] == '*' {
            strip_scan(c, i + 1)
        } else {
            seq![c[i]] + strip_scan(c, i + 1)
        }
    }
}

/// Whitespace runs of `s` collapsed to one space, with no leading space.
pub open spec fn collapse_ws(s: Seq<char>) -> Seq<char>
    decreases s.len(),
{
    if s.len() == 0 {
        seq![]
    } else {
        let prev = collapse_ws(s.drop_last());
        if is_ws(s.last()) {
            if prev.len() > 0 && prev.last() != ' ' {
                prev.push(' ')
            } else {
                prev
            }
        } else {
            prev.push(s.last())
        }
    }
}

/// Collapse whitespace runs to single spaces and trim (display normalization).
pub open spec fn normalize_ws(s: Seq<char>) -> Seq<char> {
    trim(collapse_ws(s))
}


/// Executable [`close_of`] from depth one.
fn close_of_exec(c: &[char], start: usize, op: char, cl: char) -> (r: Option<usize>)
    requires
        start <= c@.len(),
        op != cl,
    ensures
        match r {
            Some(k) => close_of(c@, start as int, 1, op, cl) == Some(k as int),
            None => close_of(c@, start as int, 1, op, cl) is None,
        },
{
    let mut i = start;
    // Nesting depth minus one.
    let mut extra: usize = 0;
    while i < c.len()
        invariant
            start <= i <= c@.len(),
            extra <= i - start,
            close_of(c@, start as int, 1, op, cl) == close_of(
                c@,
                i as int,
                (extra + 1) as nat,
                op,
                cl,
            ),
        decreases c@.len() - i,
    {
        if c[i] == op {
            extra += 1;
        } else if c[i] == cl {
            if extra == 0 {
                return Some(i);
            }
            extra -= 1;
        }
        i += 1;
    }
    None
}

/// Executable [`find_from`].
pub fn find_from_exec(c: &[char], start: usize, ch: char) -> (r: Option<usize>)
    requires
        start <= c@.len(),
    ensures
        match r {
            Some(k) => find_from(c@, start as int, ch) == Some(k as int),
            None => find_from(c@, start as int, ch) is None,
        },
{
    let mut i = start;
    while i < c.len()
        invariant
            start <= i <= c@.len(),
            find_from(c@, start as int, ch) == find_from(c@, i as int, ch),
        decreases c@.len() - i,
    {
        if c[i] == ch {
            return Some(i);
        }
        i += 1;
    }
    None
}

/// Parses `[label](dest)` or `[label][ref]` starting at `open_bracket_at`,
/// returning the label and the index just past the construct.
pub fn parse_md_linkish(chars: &[char], open_bracket_at: usize) -> (r: Option<(Vec<char>, usize)>)
    ensures
        match r {
            Some((label, next)) => linkish(chars@, open_bracket_at as int) == Some(
                (label@, next as int),
            ),
            None => linkish(chars@, open_bracket_at as int) is None,
        },
{
    if open_bracket_at >= chars.len() || chars[open_bracket_at] != '[' {
        return None;
    }
    let close = match close_of_exec(chars, open_bracket_at + 1, '[', ']') {
        Some(k) => k,
        None => {
            return None;
        },
    };
    proof {
        lemma_close_of_range(chars@, open_bracket_at + 1, 1, '[', ']');
    }
    let label = crate::text::slice_to_vec(chars, open_bracket_at + 1, close);
    let i = close + 1;
    if i < chars.len() && chars[i] == '(' {
        match close_of_exec(chars, i + 1, '(', ')') {
            Some(p) => {
                proof {
                    lemma_close_of_range(chars@, i + 1, 1, '(', ')');
                }
                Some((label, p + 1))
            },
            None => None,
        }
    } else if i < chars.len() && chars[i] == '[' {
        match find_from_exec(chars, i + 1, ']') {
            Some(q) => {
                proof {
                    lemma_find_from_range(chars@, i + 1, ']');
                }
                Some((label, q + 1))
            },
            None => None,
        }
    } else {
        None
    }
}


/// Leading debris of a link split by a snippet edge (`](…)`, `][…]`, `]`)
/// removed, repeatedly.
pub open spec fn cleanup_front(s: Seq<char>) -> Seq<char>
    decreases s.len(),
{
    let t = trim_start(s);
    proof {
        lemma_trim_lens(s);
        lemma_find_from_range(t, 2, ')');
        lemma_find_from_range(t, 2, ']');
    }
    if starts_with(t, seq![']', '(']) && find_from(t, 2, ')') is Some {
        let e = find_from(t, 2, ')').unwrap();
        cleanup_front(t.subrange(e + 1, t.len() as int))
    } else if starts_with(t, seq![']', '[']) && find_from(t, 2, ']') is Some {
        let e = find_from(t, 2, ']').unwrap();
        cleanup_front(t.subrange(e + 1, t.len() as int))
    } else if t.len() > 0 && t[0] == ']' {
        cleanup_front(t.drop_first())
    } else {
        s
    }
}

/// Trailing debris of a link split by a snippet edge (`[`, `![`) removed,
/// repeatedly.
pub open spec fn cleanup_back(s: Seq<char>) -> Seq<char>
    decreases s.len(),
{
    let t = trim_end(s);
    if t.len() > 0 && t.last() == '[' {
        let w = trim_end(trim_end_char(t, '['));
        let w2 = if w.len() > 0 && w.last() == '!' {
            trim_end(w.drop_last())
        } else {
            w
        };
        proof {
            lemma_trim_lens(s);
            lemma_trim_char_lens(t.drop_last(), '[');
            lemma_trim_lens(trim_end_char(t, '['));
            lemma_trim_lens(w.drop_last());
            assert(trim_end_char(t, '[') == trim_end_char(t.drop_last(), '['));
        }
        cleanup_back(w2)
    } else {
        s
    }
}

/// Link and image debris removed from both snippet edges.
pub open spec fn cleanup_debris(s: Seq<char>) -> Seq<char> {
    cleanup_back(cleanup_front(s))
}

/// The display text of a markdown fragment: the clean-up scan, then debris
/// removal, then whitespace normalization.
pub open spec fn strip_display(s: Seq<char>) -> Seq<char> {
    normalize_ws(cleanup_debris(strip_scan(s, 0)))
}

/// Removes link / image debris left when a match splits a markdown construct
/// across snippet edges.
pub fn cleanup_snippet_md_debris(text: &[char]) -> (r: Vec<char>)
    ensures
        r@ == cleanup_debris(text@),
{
    let v = text;
    let n = v.len();
    let mut lo: usize = 0;
    assert(v@.subrange(0, n as int) == v@);
    // Front: the current text is `v[lo..]`.
    loop
        invariant
            lo <= n == v@.len(),
            cleanup_front(v@) == cleanup_front(v@.subrange(lo as int, n as int)),
        ensures
            lo <= n,
            cleanup_front(v@) == v@.subrange(lo as int, n as int),
        decreases n - lo,
    {
        let k = skip_ws(v, lo);
        let ghost cur = v@.subrange(lo as int, n as int);
        let ghost t = v@.subrange(k as int, n as int);
        proof {
            assert forall|j: int| 0 <= j < k - lo implies is_ws(#[trigger] cur[j]) by {
                assert(cur[j] == v@[j + lo]);
            }
            if k < n {
                assert(cur[k - lo] == v@[k as int]);
            }
            lemma_trim_start_at(cur, k - lo);
            assert(cur.subrange(k - lo, cur.len() as int) == t);
        }
        if k < n && n - k >= 2 && v[k] == ']' && (v[k + 1] == '(' || v[k + 1] == '[') {
            let closer = if v[k + 1] == '(' {
                ')'
            } else {
                ']'
            };
            proof {
                assert(t.subrange(0, 2) == seq![v@[k as int], v@[k + 1]]);
            }
            match find_from_exec(v, k + 2, closer) {
                Some(e) => {
                    proof {
                        lemma_find_from_range(v@, k + 2, closer);
                        lemma_find_from_shift(v@, k as int, 2, closer);
                        assert(t.subrange(e - k + 1, t.len() as int) == v@.subrange(
                            e + 1,
                            n as int,
                        ));
                    }
                    lo = e + 1;
                    continue ;
                },
                None => {
                    proof {
                        lemma_find_from_shift(v@, k as int, 2, closer);
                    }
                },
            }
        }
        if k < n && v[k] == ']' {
            proof {
                if k + 1 < n {
                    assert(t.subrange(0, 2) == seq![v@[k as int], v@[k + 1]]);
                }
                assert(t.drop_first() == v@.subrange(k + 1, n as int));
            }
            lo = k + 1;
            continue ;
        }
        proof {
            if k + 1 < n {
                assert(t.subrange(0, 2) == seq![v@[k as int], v@[k + 1]]);
                if v@[k as int] == ']' {
                    if v@[k + 1] == '(' {
                        lemma_find_from_shift(v@, k as int, 2, ')');
                    } else if v@[k + 1] == '[' {
                        lemma_find_from_shift(v@, k as int, 2, ']');
                    }
                }
            }
            if t.len() >= 2 {
                assert(t[0] == v@[k as int]);
            }
        }
        break ;
    }
    // Back: the current text is `v[lo..hi]`.
    let mut hi = n;
    loop
        invariant
            lo <= hi <= n == v@.len(),
            cleanup_back(cleanup_front(v@)) == cleanup_back(v@.subrange(lo as int, hi as int)),
        ensures
            lo <= hi <= n,
            cleanup_back(cleanup_front(v@)) == v@.subrange(lo as int, hi as int),
        decreases hi,
    {
        let ghost cur = v@.subrange(lo as int, hi as int);
        let mut k = hi;
        while k > lo && char_is_ws(v[k - 1])
            invariant
                lo <= k <= hi,
                hi <= v@.len(),
                forall|j: int| k <= j < hi ==> is_ws(#[trigger] v@[j]),
            decreases k,
        {
            k -= 1;
        }
        proof {
            assert forall|j: int| k - lo <= j < cur.len() implies is_ws(#[trigger] cur[j]) by {
                assert(cur[j] == v@[j + lo]);
            }
            if k > lo {
                assert(cur[k - lo - 1] == v@[k - 1]);
            }
            lemma_trim_end_at(cur, k - lo);
            assert(cur.subrange(0, k - lo) == v@.subrange(lo as int, k as int));
        }
        if !(k > lo && v[k - 1] == '[') {
            proof {
                let t = v@.subrange(lo as int, k as int);
                if k > lo {
                    assert(t.last() == v@[k - 1]);
                }
            }
            break ;
        }
        let ghost t = v@.subrange(lo as int, k as int);
        let mut b = k;
        while b > lo && v[b - 1] == '['
            invariant
                lo <= b <= k,
                k <= v@.len(),
                forall|j: int| b <= j < k ==> #[trigger] v@[j] == '[',
            decreases b,
        {
            b -= 1;
        }
        proof {
            assert forall|j: int| b - lo <= j < t.len() implies #[trigger] t[j] == '[' by {
                assert(t[j] == v@[j + lo]);
            }
            if b > lo {
                assert(t[b - lo - 1] == v@[b - 1]);
            }
            lemma_trim_end_char_at(t, '[', b - lo);
            assert(t.subrange(0, b - lo) == v@.subrange(lo as int, b as int));
        }
        let mut w = b;
        while w > lo && char_is_ws(v[w - 1])
            invariant
                lo <= w <= b,
                b <= v@.len(),
                forall|j: int| w <= j < b ==> is_ws(#[trigger] v@[j]),
            decreases w,
        {
            w -= 1;
        }
        let ghost u = v@.subrange(lo as int, b as int);
        proof {
            assert forall|j: int| w - lo <= j < u.len() implies is_ws(#[trigger] u[j]) by {
                assert(u[j] == v@[j + lo]);
            }
            if w > lo {
                assert(u[w - lo - 1] == v@[w - 1]);
            }
            lemma_trim_end_at(u, w - lo);
            assert(u.subrange(0, w - lo) == v@.subrange(lo as int, w as int));
        }
        let ghost wseq = v@.subrange(lo as int, w as int);
        if w > lo && v[w - 1] == '!' {
            proof {
                assert(wseq.last() == v@[w - 1]);
            }
            let mut x = w - 1;
            while x > lo && char_is_ws(v[x - 1])
                invariant
                    lo <= x <= w - 1,
                    w <= v@.len(),
                    forall|j: int| x <= j < w - 1 ==> is_ws(#[trigger] v@[j]),
                decreases x,
            {
                x -= 1;
            }
            proof {
                let y = wseq.drop_last();
                assert(y == v@.subrange(lo as int, w - 1));
                assert forall|j: int| x - lo <= j < y.len() implies is_ws(#[trigger] y[j]) by {
                    assert(y[j] == v@[j + lo]);
                }
                if x > lo {
                    assert(y[x - lo - 1] == v@[x - 1]);
                }
                lemma_trim_end_at(y, x - lo);
                assert(y.subrange(0, x - lo) == v@.subrange(lo as int, x as int));
            }
            hi = x;
        } else {
            proof {
                if w > lo {
                    assert(wseq.last() == v@[w - 1]);
                }
            }
            hi = w;
        }
    }
    crate::text::slice_to_vec(v, lo, hi)
}

/// `find_from` on a suffix, shifted.
pub proof fn lemma_find_from_shift(v: Seq<char>, k: int, d: int, ch: char)
    requires
        0 <= k <= v.len(),
        0 <= d,
    ensures
        ({
            let t = v.subrange(k, v.len() as int);
            match find_from(t, d, ch) {
                Some(e) => find_from(v, k + d, ch) == Some(e + k),
                None => find_from(v, k + d, ch) is None,
            }
        }),
    decreases v.len() - k - d,
{
    let t = v.subrange(k, v.len() as int);
    if k + d < v.len() {
        assert(t[d] == v[k + d]);
        if v[k + d] != ch {
            lemma_find_from_shift(v, k, d + 1, ch);
        }
    }
}


/// Executable [`tick_run_end`].
fn tick_run_end_exec(c: &[char], i: usize) -> (r: usize)
    requires
        i <= c@.len(),
    ensures
        r as int == tick_run_end(c@, i as int),
        i <= r <= c@.len(),
{
    let mut k = i;
    while k < c.len() && c[k] == '`'
        invariant
            i <= k <= c@.len(),
            tick_run_end(c@, i as int) == tick_run_end(c@, k as int),
        decreases c@.len() - k,
    {
        k += 1;
    }
    k
}

/// Executable [`closing_ticks`].
fn closing_ticks_exec(c: &[char], j0: usize, count: usize) -> (r: Option<(usize, usize)>)
    requires
        j0 <= c@.len(),
    ensures
        match r {
            Some((s, e)) => closing_ticks(c@, j0 as int, count as int) == Some((s as int, e as int)),
            None => closing_ticks(c@, j0 as int, count as int) is None,
        },
{
    let mut j = j0;
    while j < c.len()
        invariant
            j0 <= j <= c@.len(),
            closing_ticks(c@, j0 as int, count as int) == closing_ticks(c@, j as int, count as int),
        decreases c@.len() - j,
    {
        if c[j] == '`' {
            let k = tick_run_end_exec(c, j);
            proof {
                lemma_tick_run_end(c@, j as int);
            }
            if k - j == count {
                return Some((j, k));
            }
            j = k;
        } else {
            j += 1;
        }
    }
    None
}

/// Executable [`hash_run_end`] from `i`.
fn hash_run_end_exec(c: &[char], i: usize) -> (r: usize)
    requires
        i <= c@.len(),
    ensures
        r as int == hash_run_end(c@, i as int, i as int),
        i <= r <= c@.len(),
{
    let mut j = i;
    while j < c.len() && c[j] == '#' && j - i < 6
        invariant
            i <= j <= c@.len(),
            hash_run_end(c@, i as int, i as int) == hash_run_end(c@, i as int, j as int),
        decreases c@.len() - j,
    {
        j += 1;
    }
    j
}

/// Executable [`skip_spaces`].
fn skip_spaces_exec(c: &[char], i: usize) -> (r: usize)
    requires
        i <= c@.len(),
    ensures
        r as int == skip_spaces(c@, i as int),
        i <= r <= c@.len(),
{
    let mut j = i;
    while j < c.len() && c[j] == ' '
        invariant
            i <= j <= c@.len(),
            skip_spaces(c@, i as int) == skip_spaces(c@, j as int),
        decreases c@.len() - j,
    {
        j += 1;
    }
    j
}

/// Light markdown clean-up for search snippet display (not used for indexing):
/// link and image labels kept, inline code unwrapped, heading, list, quote,
/// bold and italic markers dropped, debris removed, whitespace collapsed.
pub fn strip_markdown_for_display(text: &str) -> (r: String)
    ensures
        r@ == strip_display(text@),
{
    let chars = to_chars(text);
    let scanned = strip_scan_exec(&chars);
    let cleaned = cleanup_snippet_md_debris(&scanned);
    let normalized = normalize_snippet_whitespace(&cleaned);
    from_chars(&normalized)
}

/// The clean-up scan of [`strip_markdown_for_display`].
fn strip_scan_exec(chars: &Vec<char>) -> (out: Vec<char>)
    ensures
        out@ == strip_scan(chars@, 0),
{
    let c = chars.as_slice();
    let n = c.len();
    let mut out: Vec<char> = Vec::new();
    let mut i: usize = 0;
    while i < n
        invariant
            n == c@.len(),
            i <= n,
            out@ + strip_scan(c@, i as int) == strip_scan(c@, 0),
        decreases n - i,
    {
        proof {
            lemma_linkish_next(c@, i as int);
            lemma_linkish_next(c@, i + 1);
        }
        // Image: ![alt](url) / ![alt][ref]
        if c[i] == '!' && i + 1 < n && c[i + 1] == '[' {
            if let Some((label, next)) = parse_md_linkish(c, i + 1) {
                assert(strip_scan(c@, i as int) == label@ + strip_scan(c@, next as int));
                push_all(&mut out, &label);
                assert(out@ + strip_scan(c@, next as int) == strip_scan(c@, 0));
                i = next;
                continue ;
            }
        }
        // Link: [text](url) / [text][ref]

        if c[i] == '[' {
            if let Some((label, next)) = parse_md_linkish(c, i) {
                assert(strip_scan(c@, i as int) == label@ + strip_scan(c@, next as int));
                push_all(&mut out, &label);
                assert(out@ + strip_scan(c@, next as int) == strip_scan(c@, 0));
                i = next;
                continue ;
            }
        }
        // Inline code: `code` / `` code ``

        if c[i] == '`' {
            let k = tick_run_end_exec(c, i);
            proof {
                lemma_tick_run_end(c@, i as int);
            }
            match closing_ticks_exec(c, k, k - i) {
                Some((s, e)) => {
                    proof {
                        lemma_closing_ticks_range(c@, k as int, k - i);
                    }
                    assert(strip_scan(c@, i as int) == c@.subrange(k as int, s as int)
                        + strip_scan(c@, e as int));
                    push_range(&mut out, c, k, s);
                    assert(out@ + strip_scan(c@, e as int) == strip_scan(c@, 0));
                    i = e;
                },
                None => {
                    assert(strip_scan(c@, i as int) == seq!['`'] + strip_scan(c@, i + 1));
                    out.push('`');
                    assert(out@ + strip_scan(c@, i + 1) == strip_scan(c@, 0));
                    i += 1;
                },
            }
            continue ;
        }
        let at_line_start = i == 0 || c[i - 1] == '\n';
        // ATX heading markers at line start: "# "
        if c[i] == '#' && at_line_start {
            let j = hash_run_end_exec(c, i);
            if j > i && j < n && char_is_ws(c[j]) {
                let next = skip_spaces_exec(c, j);
                assert(heading_at(c@, i as int));
                assert(strip_scan(c@, i as int) == strip_scan(c@, next as int));
                i = next;
                continue ;
            }
        }
        assert(!heading_at(c@, i as int));
        // List / blockquote markers at line start
        if at_line_start {
            if c[i] == '>' && i + 1 < n && char_is_ws(c[i + 1]) {
                let next = skip_spaces_exec(c, i + 1);
                assert(strip_scan(c@, i as int) == strip_scan(c@, next as int));
                i = next;
                continue ;
            }
            if (c[i] == '-' || c[i] == '*' || c[i] == '+') && i + 1 < n && c[i + 1] == ' ' {
                assert(strip_scan(c@, i as int) == strip_scan(c@, i + 2));
                i += 2;
                continue ;
            }
        }
        // Bold markers ** / __ (a single _ is kept for snake_case)

        if (c[i] == '*' || c[i] == '_') && i + 1 < n && c[i + 1] == c[i] {
            assert(strip_scan(c@, i as int) == strip_scan(c@, i + 2));
            i += 2;
            continue ;
        }
        // Italic *text*: a lone * is dropped

        if c[i] == '*' {
            assert(strip_scan(c@, i as int) == strip_scan(c@, i + 1));
            i += 1;
            continue ;
        }
        assert(strip_scan(c@, i as int) == seq![c@[i as int]] + strip_scan(c@, i + 1));
        out.push(c[i]);
        assert(out@ + strip_scan(c@, i + 1) == strip_scan(c@, 0));
        i += 1;
    }
    assert(out@ + strip_scan(c@, n as int) == out@);
    out
}

/// Collapses whitespace runs to single spaces and trims.
pub fn normalize_snippet_whitespace(text: &[char]) -> (r: Vec<char>)
    ensures
        r@ == normalize_ws(text@),
{
    let mut out: Vec<char> = Vec::new();
    let mut i: usize = 0;
    while i < text.len()
        invariant
            i <= text@.len(),
            out@ == collapse_ws(text@.subrange(0, i as int)),
        decreases text@.len() - i,
    {
        let c = text[i];
        let ghost pre = text@.subrange(0, i + 1);
        assert(pre.drop_last() == text@.subrange(0, i as int));
        assert(pre.last() == c);
        if char_is_ws(c) {
            let n = out.len();
            if n > 0 && out[n - 1] != ' ' {
                out.push(' ');
            }
        } else {
            out.push(c);
        }
        i += 1;
    }
    assert(text@.subrange(0, text@.len() as int) == text@);
    trim_chars(&out)
}

} // verus!
