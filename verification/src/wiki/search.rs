//! Search result classification: why a page matched, its highlighted body
//! excerpt, ranking weights, and the FTS query built from user input.

use vstd::prelude::*;
use crate::text::{
    is_ws, trim, trim_start, trim_end, trim_char, trim_start_char, trim_end_char, starts_with,
    contains_seq, lowercase, segments, to_chars, from_chars, lowercase_chars, contains_chars,
    starts_with_chars, split_segments, slice_to_vec, skip_ws, char_is_ws, push_all, push_range,
    lemma_trim_start_at, lemma_trim_end_at, lemma_trim_start_char_at, lemma_trim_end_char_at,
    trim_chars,
};
use crate::wiki::markdown::{strip_display, strip_markdown_for_display};

verus! {

/// Why a page appeared in search results.
#[derive(Clone, Copy, Debug, PartialEq, Eq, Structural)]
pub enum WikiMatchKind {
    /// Full query string appears in the body.
    BodyExact,
    /// Full query string appears in the title.
    TitleExact,
    /// Full query string appears in tags.
    TagsExact,
    /// Full query string appears in the relative path.
    PathExact,
    /// FTS hit in body via stem/prefix (not a literal substring).
    BodyRelated,
    /// FTS hit attributed to title without literal substring.
    TitleRelated,
    /// FTS hit attributed to tags without literal substring.
    TagsRelated,
    /// FTS hit attributed to path without literal substring.
    PathRelated,
    /// Empty-query "recent" listing.
    Recent,
}

/// Wire name of a match kind.
pub open spec fn match_kind_str(k: WikiMatchKind) -> Seq<char> {
    match k {
        WikiMatchKind::BodyExact => "body_exact"@,
        WikiMatchKind::TitleExact => "title_exact"@,
        WikiMatchKind::TagsExact => "tags_exact"@,
        WikiMatchKind::PathExact => "path_exact"@,
        WikiMatchKind::BodyRelated => "body_related"@,
        WikiMatchKind::TitleRelated => "title_related"@,
        WikiMatchKind::TagsRelated => "tags_related"@,
        WikiMatchKind::PathRelated => "path_related"@,
        WikiMatchKind::Recent => "recent"@,
    }
}

/// Human-readable reason of a match kind.
pub open spec fn match_kind_label(k: WikiMatchKind) -> Seq<char> {
    match k {
        WikiMatchKind::BodyExact => "Text match"@,
        WikiMatchKind::TitleExact => "Title match"@,
        WikiMatchKind::TagsExact => "Tag match"@,
        WikiMatchKind::PathExact => "Path match"@,
        WikiMatchKind::BodyRelated => "Related in body"@,
        WikiMatchKind::TitleRelated => "Related in title"@,
        WikiMatchKind::TagsRelated => "Related in tags"@,
        WikiMatchKind::PathRelated => "Related in path"@,
        WikiMatchKind::Recent => "Recent"@,
    }
}

/// Ranking weight of a match kind (higher is better).
pub open spec fn match_kind_rank(k: WikiMatchKind) -> i32 {
    match k {
        WikiMatchKind::BodyExact => 100,
        WikiMatchKind::TitleExact => 90,
        WikiMatchKind::TagsExact => 80,
        WikiMatchKind::PathExact => 70,
        WikiMatchKind::BodyRelated => 40,
        WikiMatchKind::TitleRelated => 35,
        WikiMatchKind::TagsRelated => 30,
        WikiMatchKind::PathRelated => 25,
        WikiMatchKind::Recent => 0,
    }
}

impl WikiMatchKind {
    pub fn as_str(self) -> (r: &'static str)
        ensures
            r@ == match_kind_str(self),
    {
        match self {
            WikiMatchKind::BodyExact => "body_exact",
            WikiMatchKind::TitleExact => "title_exact",
            WikiMatchKind::TagsExact => "tags_exact",
            WikiMatchKind::PathExact => "path_exact",
            WikiMatchKind::BodyRelated => "body_related",
            WikiMatchKind::TitleRelated => "title_related",
            WikiMatchKind::TagsRelated => "tags_related",
            WikiMatchKind::PathRelated => "path_related",
            WikiMatchKind::Recent => "recent",
        }
    }

    pub fn label(self) -> (r: &'static str)
        ensures
            r@ == match_kind_label(self),
    {
        match self {
            WikiMatchKind::BodyExact => "Text match",
            WikiMatchKind::TitleExact => "Title match",
            WikiMatchKind::TagsExact => "Tag match",
            WikiMatchKind::PathExact => "Path match",
            WikiMatchKind::BodyRelated => "Related in body",
            WikiMatchKind::TitleRelated => "Related in title",
            WikiMatchKind::TagsRelated => "Related in tags",
            WikiMatchKind::PathRelated => "Related in path",
            WikiMatchKind::Recent => "Recent",
        }
    }

    pub fn rank_score(self) -> (r: i32)
        ensures
            r == match_kind_rank(self),
    {
        match self {
            WikiMatchKind::BodyExact => 100,
            WikiMatchKind::TitleExact => 90,
            WikiMatchKind::TagsExact => 80,
            WikiMatchKind::PathExact => 70,
            WikiMatchKind::BodyRelated => 40,
            WikiMatchKind::TitleRelated => 35,
            WikiMatchKind::TagsRelated => 30,
            WikiMatchKind::PathRelated => 25,
            WikiMatchKind::Recent => 0,
        }
    }
}

/// Exact kinds rank above every related kind, and every match above "recent".
pub proof fn lemma_exact_outranks_related(a: WikiMatchKind, b: WikiMatchKind)
    requires
        a == WikiMatchKind::BodyExact || a == WikiMatchKind::TitleExact || a
            == WikiMatchKind::TagsExact || a == WikiMatchKind::PathExact,
        b == WikiMatchKind::BodyRelated || b == WikiMatchKind::TitleRelated || b
            == WikiMatchKind::TagsRelated || b == WikiMatchKind::PathRelated || b
            == WikiMatchKind::Recent,
    ensures
        match_kind_rank(a) > match_kind_rank(b),
{
}

/// Highlighted body excerpt for an exact text match.
#[derive(Clone, Debug)]
pub struct WikiSearchSnippet {
    pub before: String,
    pub matched: String,
    pub after: String,
}

/// The ellipsis that marks a cut snippet edge.
pub open spec fn ellipsis() -> char {
    '\u{2026}'
}

/// A snippet edge cleaned for display: its leading / trailing ellipses kept,
/// the markdown between them cleaned.
pub open spec fn snippet_part(t: Seq<char>) -> Seq<char> {
    let lead = t.len() > 0 && t[0] == ellipsis();
    let trail = t.len() > 0 && t.last() == ellipsis();
    let core = trim_char(t, ellipsis());
    let cleaned = strip_display(core);
    (if lead {
        seq![ellipsis()]
    } else {
        seq![]
    }) + cleaned + (if trail {
        seq![ellipsis()]
    } else {
        seq![]
    })
}

/// Whether the `q.len()` characters of `b` at `i`, lowercased, equal `lq`.
pub open spec fn window_matches(b: Seq<char>, q: Seq<char>, lq: Seq<char>, i: int) -> bool {
    lowercase(b.subrange(i, i + q.len())) == lq
}

/// First window start at or after `i` (and at most `b.len() - q.len()`)
/// whose lowercase equals `lowercase(q)`.
pub open spec fn first_window(b: Seq<char>, q: Seq<char>, i: int) -> Option<int>
    decreases b.len() - q.len() + 1 - i,
{
    if i < 0 || i > b.len() - q.len() {
        None
    } else if window_matches(b, q, lowercase(q), i) {
        Some(i)
    } else {
        first_window(b, q, i + 1)
    }
}

/// Characters of context kept on each side of a snippet match.
pub open spec fn snippet_context() -> int {
    56
}

/// The body snippet for `query`: the first case-insensitive occurrence with up
/// to 56 characters of context on each side (cut edges marked with an
/// ellipsis), each part cleaned of markdown.
pub open spec fn body_snippet(b: Seq<char>, q: Seq<char>) -> Option<(Seq<char>, Seq<char>, Seq<char>)> {
    if lowercase(q).len() == 0 || b.len() < q.len() {
        None
    } else {
        match first_window(b, q, 0) {
            None => None,
            Some(i) => {
                let end = i + q.len();
                let matched = b.subrange(i, end);
                let bcs = if i >= snippet_context() {
                    i - snippet_context()
                } else {
                    0
                };
                let before0 = b.subrange(bcs, i);
                let before = if bcs > 0 {
                    seq![ellipsis()] + trim_start(before0)
                } else {
                    before0
                };
                let ace = if end + snippet_context() < b.len() {
                    end + snippet_context()
                } else {
                    b.len() as int
                };
                let after0 = b.subrange(end, ace);
                let after = if ace < b.len() {
                    trim_end(after0) + seq![ellipsis()]
                } else {
                    after0
                };
                Some((snippet_part(before), strip_display(matched), snippet_part(after)))
            },
        }
    }
}

/// Whether `snippet` holds exactly the three parts `parts`.
pub open spec fn snippet_is(snippet: WikiSearchSnippet, parts: (Seq<char>, Seq<char>, Seq<char>)) -> bool {
    snippet.before@ == parts.0 && snippet.matched@ == parts.1 && snippet.after@ == parts.2
}

/// Preserves snippet ellipsis edges while cleaning markdown in the middle.
pub fn strip_snippet_part(text: &str) -> (r: String)
    ensures
        r@ == snippet_part(text@),
{
    let v = to_chars(text);
    let n = v.len();
    let e = '\u{2026}';
    let lead = n > 0 && v[0] == e;
    let trail = n > 0 && v[n - 1] == e;
    let mut lo: usize = 0;
    while lo < n && v[lo] == e
        invariant
            lo <= n == v@.len(),
            forall|j: int| 0 <= j < lo ==> #[trigger] v@[j] == e,
        decreases n - lo,
    {
        lo += 1;
    }
    let mut hi = n;
    while hi > lo && v[hi - 1] == e
        invariant
            lo <= hi <= n == v@.len(),
            forall|j: int| hi <= j < n ==> #[trigger] v@[j] == e,
        decreases hi,
    {
        hi -= 1;
    }
    proof {
        lemma_trim_start_char_at(v@, e, lo as int);
        let t = v@.subrange(lo as int, n as int);
        assert forall|j: int| hi - lo <= j < t.len() implies #[trigger] t[j] == e by {
            assert(t[j] == v@[j + lo]);
        }
        if hi > lo {
            assert(t[hi - lo - 1] == v@[hi - 1]);
        }
        lemma_trim_end_char_at(t, e, hi - lo);
        assert(t.subrange(0, hi - lo) == v@.subrange(lo as int, hi as int));
    }
    let core = from_chars(&slice_to_vec(&v, lo, hi));
    let cleaned = strip_markdown_for_display(core.as_str());
    let cv = to_chars(cleaned.as_str());
    let mut out: Vec<char> = Vec::new();
    if lead {
        out.push(e);
    }
    push_all(&mut out, &cv);
    if trail {
        out.push(e);
    }
    proof {
        if n > 0 {
            assert(v@.last() == v@[n - 1]);
        }
        if lead {
            assert(out@ == seq![e] + cv@ + (if trail { seq![e] } else { seq![] }));
        } else {
            assert(out@ == seq![] + cv@ + (if trail { seq![e] } else { seq![] }));
        }
    }
    from_chars(&out)
}

/// Finds the first case-insensitive occurrence of `query` in `body` and
/// builds the highlighted excerpt around it.
pub fn make_body_snippet(body: &str, query: &str) -> (r: Option<WikiSearchSnippet>)
    ensures
        match r {
            Some(s) => body_snippet(body@, query@) matches Some(p) && snippet_is(s, p),
            None => body_snippet(body@, query@) is None,
        },
{
    let lower_q = crate::text::to_lowercase(query);
    if lower_q.as_str().unicode_len() == 0 {
        return None;
    }
    let q = to_chars(query);
    let q_len = q.len();
    let hay = to_chars(body);
    let n = hay.len();
    if n < q_len {
        return None;
    }
    let mut i: usize = 0;
    loop
        invariant
            q_len == q@.len() <= n == hay@.len(),
            lower_q@ == lowercase(query@),
            lower_q@.len() > 0,
            q@ == query@,
            hay@ == body@,
            i <= n - q_len,
            first_window(hay@, q@, 0) == first_window(hay@, q@, i as int),
        ensures
            i <= n - q_len,
            first_window(hay@, q@, 0) == Some(i as int),
        decreases n - q_len - i,
    {
        let window = from_chars(&slice_to_vec(&hay, i, i + q_len));
        let lw = crate::text::to_lowercase(window.as_str());
        if lw == lower_q {
            break ;
        }
        if i == n - q_len {
            assert(first_window(hay@, q@, i + 1) is None);
            return None;
        }
        i += 1;
    }
    let start_i = i;
    let end_i = start_i + q_len;
    let matched = from_chars(&slice_to_vec(&hay, start_i, end_i));
    let bcs = if start_i >= 56 {
        start_i - 56
    } else {
        0
    };
    let before_raw = slice_to_vec(&hay, bcs, start_i);
    let before: Vec<char> = if bcs > 0 {
        let mut b: Vec<char> = Vec::new();
        b.push('\u{2026}');
        let k = skip_ws(&before_raw, 0);
        proof {
            lemma_trim_start_at(before_raw@, k as int);
        }
        push_range(&mut b, &before_raw, k, before_raw.len());
        assert(b@ == seq!['\u{2026}'] + trim_start(before_raw@));
        b
    } else {
        before_raw
    };
    let ace = if n - end_i > 56 {
        end_i + 56
    } else {
        n
    };
    let after_raw = slice_to_vec(&hay, end_i, ace);
    let after: Vec<char> = if ace < n {
        let mut a = trim_end_vec(&after_raw);
        a.push('\u{2026}');
        a
    } else {
        after_raw
    };
    proof {
        let b = body@;
        let qq = query@;
        assert(hay@.subrange(start_i as int, end_i as int) == b.subrange(start_i as int, start_i + qq.len()));
        assert(before@ == (if bcs > 0 {
            seq![ellipsis()] + trim_start(b.subrange(bcs as int, start_i as int))
        } else {
            b.subrange(bcs as int, start_i as int)
        }));
        assert(after@ == (if (ace as int) < b.len() {
            trim_end(b.subrange(end_i as int, ace as int)) + seq![ellipsis()]
        } else {
            b.subrange(end_i as int, ace as int)
        }));
    }
    let before_s = strip_snippet_part(from_chars(&before).as_str());
    let matched_s = strip_markdown_for_display(matched.as_str());
    let after_s = strip_snippet_part(from_chars(&after).as_str());
    Some(WikiSearchSnippet { before: before_s, matched: matched_s, after: after_s })
}

/// `v` without trailing whitespace.
fn trim_end_vec(v: &[char]) -> (r: Vec<char>)
    ensures
        r@ == trim_end(v@),
{
    let mut k = v.len();
    while k > 0 && char_is_ws(v[k - 1])
        invariant
            k <= v@.len(),
            forall|j: int| k <= j < v@.len() ==> is_ws(#[trigger] v@[j]),
        decreases k,
    {
        k -= 1;
    }
    proof {
        lemma_trim_end_at(v@, k as int);
    }
    slice_to_vec(v, 0, k)
}


/// Lowercased, non-empty forms of `segs`, in order.
pub open spec fn lower_nonempty(segs: Seq<Seq<char>>) -> Seq<Seq<char>>
    decreases segs.len(),
{
    if segs.len() == 0 {
        seq![]
    } else {
        let p = lower_nonempty(segs.drop_last());
        let l = lowercase(segs.last());
        if l.len() > 0 {
            p.push(l)
        } else {
            p
        }
    }
}

/// Whether one of two words is a prefix of the other.
pub open spec fn prefix_related(w: Seq<char>, t: Seq<char>) -> bool {
    starts_with(w, t) || starts_with(t, w)
}

/// Whether some alphanumeric word of `haystack` and some whitespace token of
/// `query`, both lowercased and non-empty, are prefix-related.
pub open spec fn has_related_token(haystack: Seq<char>, query: Seq<char>) -> bool {
    let tokens = lower_nonempty(segments(query, true));
    let words = lower_nonempty(segments(haystack, false));
    tokens.len() > 0 && exists|i: int, j: int|
        0 <= i < words.len() && 0 <= j < tokens.len() && #[trigger] prefix_related(
            words[i],
            tokens[j],
        )
}

/// Lowercased non-empty forms of `segs`.
fn lower_nonempty_exec(segs: &Vec<Vec<char>>, Ghost(spec_segs): Ghost<Seq<Seq<char>>>) -> (r: Vec<
    Vec<char>,
>)
    requires
        segs@.len() == spec_segs.len(),
        forall|k: int| 0 <= k < segs@.len() ==> #[trigger] segs@[k]@ == spec_segs[k],
    ensures
        r@.len() == lower_nonempty(spec_segs).len(),
        forall|k: int| 0 <= k < r@.len() ==> #[trigger] r@[k]@ == lower_nonempty(spec_segs)[k],
{
    let mut out: Vec<Vec<char>> = Vec::new();
    let mut i: usize = 0;
    while i < segs.len()
        invariant
            i <= segs@.len() == spec_segs.len(),
            forall|k: int| 0 <= k < segs@.len() ==> #[trigger] segs@[k]@ == spec_segs[k],
            out@.len() == lower_nonempty(spec_segs.subrange(0, i as int)).len(),
            forall|k: int|
                0 <= k < out@.len() ==> #[trigger] out@[k]@ == lower_nonempty(
                    spec_segs.subrange(0, i as int),
                )[k],
        decreases segs@.len() - i,
    {
        let l = lowercase_chars(&segs[i]);
        let ghost pre = spec_segs.subrange(0, i + 1);
        assert(pre.drop_last() == spec_segs.subrange(0, i as int));
        assert(pre.last() == spec_segs[i as int]);
        if l.len() > 0 {
            out.push(l);
        }
        i += 1;
    }
    assert(spec_segs.subrange(0, segs@.len() as int) == spec_segs);
    out
}

/// Whether some word of `haystack` is a prefix-related form of some query
/// token (the FTS "related" heuristic).
pub fn field_has_related_token(haystack: &str, query: &str) -> (r: bool)
    ensures
        r == has_related_token(haystack@, query@),
{
    let qv = to_chars(query);
    let hv = to_chars(haystack);
    let qsegs = split_segments(&qv, true);
    let tokens = lower_nonempty_exec(&qsegs, Ghost(segments(query@, true)));
    if tokens.len() == 0 {
        return false;
    }
    let hsegs = split_segments(&hv, false);
    let words = lower_nonempty_exec(&hsegs, Ghost(segments(haystack@, false)));
    let ghost tk = lower_nonempty(segments(query@, true));
    let ghost ws = lower_nonempty(segments(haystack@, false));
    let mut i: usize = 0;
    while i < words.len()
        invariant
            i <= words@.len() == ws.len(),
            tokens@.len() == tk.len(),
            tk == lower_nonempty(segments(query@, true)),
            ws == lower_nonempty(segments(haystack@, false)),
            forall|k: int| 0 <= k < words@.len() ==> #[trigger] words@[k]@ == ws[k],
            forall|k: int| 0 <= k < tokens@.len() ==> #[trigger] tokens@[k]@ == tk[k],
            forall|a: int, b: int|
                0 <= a < i && 0 <= b < tk.len() ==> !#[trigger] prefix_related(ws[a], tk[b]),
        decreases words@.len() - i,
    {
        let mut j: usize = 0;
        while j < tokens.len()
            invariant
                i < words@.len() == ws.len(),
                j <= tokens@.len() == tk.len(),
                tk == lower_nonempty(segments(query@, true)),
                ws == lower_nonempty(segments(haystack@, false)),
                forall|k: int| 0 <= k < words@.len() ==> #[trigger] words@[k]@ == ws[k],
                forall|k: int| 0 <= k < tokens@.len() ==> #[trigger] tokens@[k]@ == tk[k],
                forall|a: int, b: int|
                    0 <= a < i && 0 <= b < tk.len() ==> !#[trigger] prefix_related(ws[a], tk[b]),
                forall|b: int| 0 <= b < j ==> !#[trigger] prefix_related(ws[i as int], tk[b]),
            decreases tokens@.len() - j,
        {
            let w = &words[i];
            let t = &tokens[j];
            if starts_with_chars(w, t) || starts_with_chars(t, w) {
                assert(prefix_related(ws[i as int], tk[j as int]));
                assert(tk.len() > 0);
                assert(exists|a: int, b: int|
                    0 <= a < ws.len() && 0 <= b < tk.len() && #[trigger] prefix_related(
                        ws[a],
                        tk[b],
                    ));
                return true;
            }
            j += 1;
        }
        i += 1;
    }
    false
}

/// The match kind (and body snippet) of a search hit: body text, then title,
/// tags and path substrings (case-insensitive), then prefix-related tokens in
/// the same field order; body-related when nothing else applies.
pub open spec fn classify(
    query: Seq<char>,
    title: Seq<char>,
    rel_path: Seq<char>,
    tags: Seq<char>,
    body: Seq<char>,
) -> (WikiMatchKind, Option<(Seq<char>, Seq<char>, Seq<char>)>) {
    let q = lowercase(query);
    if body_snippet(body, query) is Some {
        (WikiMatchKind::BodyExact, body_snippet(body, query))
    } else if contains_seq(lowercase(title), q) {
        (WikiMatchKind::TitleExact, None)
    } else if contains_seq(lowercase(tags), q) {
        (WikiMatchKind::TagsExact, None)
    } else if contains_seq(lowercase(rel_path), q) {
        (WikiMatchKind::PathExact, None)
    } else if has_related_token(body, query) {
        (WikiMatchKind::BodyRelated, None)
    } else if has_related_token(title, query) {
        (WikiMatchKind::TitleRelated, None)
    } else if has_related_token(tags, query) {
        (WikiMatchKind::TagsRelated, None)
    } else if has_related_token(rel_path, query) {
        (WikiMatchKind::PathRelated, None)
    } else {
        (WikiMatchKind::BodyRelated, None)
    }
}

/// A hit whose body holds the query (case-insensitively, so that a body
/// snippet exists) is a body match carrying that snippet, whatever its
/// title, tags and path hold; and only such a hit is a body match or
/// carries a snippet.
pub proof fn lemma_body_text_match_first(
    query: Seq<char>,
    title: Seq<char>,
    rel_path: Seq<char>,
    tags: Seq<char>,
    body: Seq<char>,
)
    ensures
        body_snippet(body, query) is Some ==> classify(query, title, rel_path, tags, body) == (
        WikiMatchKind::BodyExact, body_snippet(body, query)),
        (classify(query, title, rel_path, tags, body).0 == WikiMatchKind::BodyExact) == (body_snippet(
            body,
            query,
        ) is Some),
        (classify(query, title, rel_path, tags, body).1 is Some) == (body_snippet(body, query) is Some),
{
}

/// A field that holds the query literally (case-insensitively) makes the
/// hit an exact match: a title hit is a body or title match, a tags hit is a
/// body, title or tags match, and a path hit is an exact match of some
/// field; a related (stem or prefix) kind comes only when no field holds the
/// query literally.
pub proof fn lemma_literal_match_beats_related(
    query: Seq<char>,
    title: Seq<char>,
    rel_path: Seq<char>,
    tags: Seq<char>,
    body: Seq<char>,
)
    ensures
        ({
            let k = classify(query, title, rel_path, tags, body).0;
            let q = lowercase(query);
            &&& contains_seq(lowercase(title), q) ==> (k == WikiMatchKind::BodyExact || k == WikiMatchKind::TitleExact)
            &&& contains_seq(lowercase(tags), q) ==> (k == WikiMatchKind::BodyExact || k == WikiMatchKind::TitleExact
                || k == WikiMatchKind::TagsExact)
            &&& contains_seq(lowercase(rel_path), q) ==> (k == WikiMatchKind::BodyExact || k == WikiMatchKind::TitleExact
                || k == WikiMatchKind::TagsExact || k == WikiMatchKind::PathExact)
            &&& !contains_seq(lowercase(title), q) && !contains_seq(lowercase(tags), q) && !contains_seq(
                lowercase(rel_path),
                q,
            ) && body_snippet(body, query) is None ==> (k != WikiMatchKind::TitleExact && k != WikiMatchKind::TagsExact
                && k != WikiMatchKind::PathExact && k != WikiMatchKind::BodyExact)
        }),
{
}

/// Whether `lowercase(field)` contains `lq`.
fn lower_contains(field: &str, lq: &Vec<char>) -> (r: bool)
    ensures
        r == contains_seq(lowercase(field@), lq@),
{
    let l = crate::text::to_lowercase(field);
    let lv = to_chars(l.as_str());
    contains_chars(&lv, lq)
}

/// Classifies why an FTS hit matched the query.
pub fn classify_match(
    query: &str,
    title: &str,
    rel_path: &str,
    tags: &str,
    body: &str,
) -> (r: (WikiMatchKind, Option<WikiSearchSnippet>))
    ensures
        r.0 == classify(query@, title@, rel_path@, tags@, body@).0,
        match r.1 {
            Some(s) => classify(query@, title@, rel_path@, tags@, body@).1 matches Some(p)
                && snippet_is(s, p),
            None => classify(query@, title@, rel_path@, tags@, body@).1 is None,
        },
        body_snippet(body@, query@) matches Some(p) ==> r.0 == WikiMatchKind::BodyExact,
        body_snippet(body@, query@) matches Some(p) ==> (r.1 matches Some(s) && snippet_is(s, p)),
        body_snippet(body@, query@) is None ==> r.0 != WikiMatchKind::BodyExact && r.1 is None,
{
    let q = to_chars(crate::text::to_lowercase(query).as_str());
    if let Some(snippet) = make_body_snippet(body, query) {
        return (WikiMatchKind::BodyExact, Some(snippet));
    }
    if lower_contains(title, &q) {
        return (WikiMatchKind::TitleExact, None);
    }
    if lower_contains(tags, &q) {
        return (WikiMatchKind::TagsExact, None);
    }
    if lower_contains(rel_path, &q) {
        return (WikiMatchKind::PathExact, None);
    }
    if field_has_related_token(body, query) {
        return (WikiMatchKind::BodyRelated, None);
    }
    if field_has_related_token(title, query) {
        return (WikiMatchKind::TitleRelated, None);
    }
    if field_has_related_token(tags, query) {
        return (WikiMatchKind::TagsRelated, None);
    }
    if field_has_related_token(rel_path, query) {
        return (WikiMatchKind::PathRelated, None);
    }
    (WikiMatchKind::BodyRelated, None)
}

/// Characters that FTS5 treats as syntax and that are dropped from terms.
pub open spec fn is_fts_special(c: char) -> bool {
    c == '"' || c == '*' || c == '(' || c == ')' || c == ':' || c == '^'
}

/// `s` without FTS syntax characters.
pub open spec fn remove_fts_special(s: Seq<char>) -> Seq<char>
    decreases s.len(),
{
    if s.len() == 0 {
        seq![]
    } else if is_fts_special(s.last()) {
        remove_fts_special(s.drop_last())
    } else {
        remove_fts_special(s.drop_last()).push(s.last())
    }
}

/// One quoted prefix term per whitespace token that is non-empty once FTS
/// syntax characters are dropped and it is trimmed: `"token"*`.
pub open spec fn fts_terms(tokens: Seq<Seq<char>>) -> Seq<Seq<char>>
    decreases tokens.len(),
{
    if tokens.len() == 0 {
        seq![]
    } else {
        let p = fts_terms(tokens.drop_last());
        let cleaned = trim(remove_fts_special(tokens.last()));
        if cleaned.len() > 0 {
            p.push(seq!['"'] + cleaned + seq!['"', '*'])
        } else {
            p
        }
    }
}

/// `parts` joined with `sep` between consecutive parts.
pub open spec fn join(parts: Seq<Seq<char>>, sep: Seq<char>) -> Seq<char>
    decreases parts.len(),
{
    if parts.len() == 0 {
        seq![]
    } else if parts.len() == 1 {
        parts[0]
    } else {
        join(parts.drop_last(), sep) + sep + parts.last()
    }
}

/// The FTS5 MATCH expression for a user query: an AND of quoted prefix
/// terms, or nothing when no term is left.
pub open spec fn fts_match_query(raw: Seq<char>) -> Option<Seq<char>> {
    let terms = fts_terms(segments(raw, true));
    if terms.len() == 0 {
        None
    } else {
        Some(join(terms, seq![' ']))
    }
}

/// Turns a user query into a safe FTS5 MATCH expression (AND of prefix terms).
pub fn build_fts_match_query(raw: &str) -> (r: Option<String>)
    ensures
        match r {
            Some(q) => fts_match_query(raw@) == Some(q@),
            None => fts_match_query(raw@) is None,
        },
{
    let v = to_chars(raw);
    let toks = split_segments(&v, true);
    let ghost st = segments(raw@, true);
    let mut out: Vec<char> = Vec::new();
    let mut count: usize = 0;
    let mut i: usize = 0;
    while i < toks.len()
        invariant
            i <= toks@.len() == st.len(),
            forall|k: int| 0 <= k < toks@.len() ==> #[trigger] toks@[k]@ == st[k],
            count == fts_terms(st.subrange(0, i as int)).len(),
            count <= i,
            out@ == join(fts_terms(st.subrange(0, i as int)), seq![' ']),
        decreases toks@.len() - i,
    {
        let tok = &toks[i];
        let mut filtered: Vec<char> = Vec::new();
        let mut j: usize = 0;
        while j < tok.len()
            invariant
                j <= tok@.len(),
                filtered@ == remove_fts_special(tok@.subrange(0, j as int)),
            decreases tok@.len() - j,
        {
            let c = tok[j];
            let ghost pre = tok@.subrange(0, j + 1);
            assert(pre.drop_last() == tok@.subrange(0, j as int));
            if !(c == '"' || c == '*' || c == '(' || c == ')' || c == ':' || c == '^') {
                filtered.push(c);
            }
            j += 1;
        }
        assert(tok@.subrange(0, tok@.len() as int) == tok@);
        let cleaned = trim_chars(&filtered);
        let ghost pre = st.subrange(0, i + 1);
        assert(pre.drop_last() == st.subrange(0, i as int));
        assert(pre.last() == st[i as int]);
        if cleaned.len() > 0 {
            if count > 0 {
                out.push(' ');
            }
            out.push('"');
            push_all(&mut out, &cleaned);
            out.push('"');
            out.push('*');
            proof {
                let term = seq!['"'] + cleaned@ + seq!['"', '*'];
                let prev = fts_terms(st.subrange(0, i as int));
                let terms = prev.push(term);
                assert(terms.drop_last() == prev);
                if count > 0 {
                    assert(out@ == join(prev, seq![' ']) + seq![' '] + term);
                } else {
                    assert(join(terms, seq![' ']) == term);
                    assert(out@ == term);
                }
            }
            count += 1;
        }
        i += 1;
    }
    assert(st.subrange(0, toks@.len() as int) == st);
    if count == 0 {
        None
    } else {
        Some(from_chars(&out))
    }
}

/// How a search query is answered: a blank query lists recent pages; a
/// query with searchable terms runs as this FTS5 expression; one without
/// any finds nothing.
#[derive(Clone, Debug)]
pub enum SearchPlan {
    Recent,
    Match(String),
    NoMatch,
}

/// How a query is answered (see [`SearchPlan`]): on its trimmed text,
/// blank lists recent pages, else [`fts_match_query`] decides.
pub fn search_plan(query: &str) -> (r: SearchPlan)
    ensures
        trim(query@).len() == 0 ==> r is Recent,
        trim(query@).len() > 0 ==> match fts_match_query(trim(query@)) {
            Some(q) => r matches SearchPlan::Match(m) && m@ == q,
            None => r is NoMatch,
        },
{
    let raw = crate::text::trim_str(query);
    if raw.as_str().unicode_len() == 0 {
        return SearchPlan::Recent;
    }
    match build_fts_match_query(raw.as_str()) {
        Some(q) => SearchPlan::Match(q),
        None => SearchPlan::NoMatch,
    }
}

/// What a recent page is shown as in search results: its kind, the reason
/// shown, and the score.
pub fn recent_hit() -> (r: (&'static str, &'static str, i32))
    ensures
        r.0@ == match_kind_str(WikiMatchKind::Recent),
        r.1@ == match_kind_label(WikiMatchKind::Recent),
        r.2 == match_kind_rank(WikiMatchKind::Recent),
{
    let kind = WikiMatchKind::Recent;
    (kind.as_str(), kind.label(), kind.rank_score())
}

/// Hit `a` (score, modification time) ranks strictly before hit `b`: a
/// higher score, or the same score and a later modification time.
pub open spec fn ranks_before(a: (i32, Seq<char>), b: (i32, Seq<char>)) -> bool {
    a.0 > b.0 || (a.0 == b.0 && crate::order::lex_lt(b.1, a.1))
}

/// Position in `order` before the first hit that `x` ranks before.
pub open spec fn rank_pos(keys: Seq<(i32, Seq<char>)>, order: Seq<usize>, x: (i32, Seq<char>)) -> int
    decreases order.len(),
{
    if order.len() == 0 {
        0
    } else if ranks_before(x, keys[order[0] as int]) {
        0
    } else {
        1 + rank_pos(keys, order.drop_first(), x)
    }
}

/// The first `n` hits in stable rank order: best first, hits that rank
/// alike in their given order.
pub open spec fn rank_order(keys: Seq<(i32, Seq<char>)>, n: int) -> Seq<usize>
    decreases n,
{
    if n <= 0 {
        Seq::empty()
    } else {
        let o = rank_order(keys, n - 1);
        o.insert(rank_pos(keys, o, keys[n - 1]), (n - 1) as usize)
    }
}

/// The ranking keys of hits.
pub open spec fn hit_keys(scores: Seq<i32>, mtimes: Seq<String>) -> Seq<(i32, Seq<char>)> {
    Seq::new(scores.len(), |k: int| (scores[k], mtimes[k]@))
}

proof fn lemma_rank_pos(keys: Seq<(i32, Seq<char>)>, order: Seq<usize>, x: (i32, Seq<char>), k: int)
    requires
        0 <= k <= order.len(),
        forall|j: int| 0 <= j < k ==> !ranks_before(x, keys[#[trigger] order[j] as int]),
        k < order.len() ==> ranks_before(x, keys[order[k] as int]),
    ensures
        rank_pos(keys, order, x) == k,
    decreases k,
{
    if k > 0 {
        assert(!ranks_before(x, keys[order[0] as int]));
        let rest = order.drop_first();
        assert forall|j: int| 0 <= j < k - 1 implies !ranks_before(x, keys[#[trigger] rest[j] as int]) by {
            assert(rest[j] == order[j + 1]);
        }
        if k - 1 < rest.len() {
            assert(rest[k - 1] == order[k]);
        }
        lemma_rank_pos(keys, rest, x, k - 1);
    }
}

proof fn lemma_ranks_transitive(a: (i32, Seq<char>), b: (i32, Seq<char>), c: (i32, Seq<char>))
    requires
        ranks_before(a, b),
        ranks_before(b, c),
    ensures
        ranks_before(a, c),
{
    if a.0 == b.0 && b.0 == c.0 {
        crate::order::lemma_lex_transitive(c.1, b.1, a.1);
    }
}

proof fn lemma_ranks_asymmetric(a: (i32, Seq<char>), b: (i32, Seq<char>))
    requires
        ranks_before(a, b),
    ensures
        !ranks_before(b, a),
{
    if a.0 == b.0 {
        crate::order::lemma_lex_asymmetric(b.1, a.1);
    }
}

/// Hits before the insertion position do not rank after the inserted one,
/// and the hit at it ranks after it.
proof fn lemma_rank_pos_props(keys: Seq<(i32, Seq<char>)>, order: Seq<usize>, x: (i32, Seq<char>))
    ensures
        0 <= rank_pos(keys, order, x) <= order.len(),
        forall|j: int| 0 <= j < rank_pos(keys, order, x) ==> !ranks_before(x, keys[#[trigger] order[j] as int]),
        rank_pos(keys, order, x) < order.len() ==> ranks_before(x, keys[order[rank_pos(keys, order, x)] as int]),
    decreases order.len(),
{
    if order.len() > 0 && !ranks_before(x, keys[order[0] as int]) {
        let rest = order.drop_first();
        lemma_rank_pos_props(keys, rest, x);
        assert forall|j: int| 0 <= j < rank_pos(keys, order, x) implies !ranks_before(x, keys[#[trigger] order[j] as int]) by {
            if j > 0 {
                assert(order[j] == rest[j - 1]);
            }
        }
        if rank_pos(keys, order, x) < order.len() {
            assert(order[rank_pos(keys, order, x)] == rest[rank_pos(keys, rest, x)]);
        }
    }
}

/// Rank order lists each of the first `n` hits once, best first: no hit
/// ranks before one listed ahead of it.
pub proof fn lemma_rank_order_sorted(keys: Seq<(i32, Seq<char>)>, n: int)
    requires
        0 <= n <= keys.len(),
        keys.len() <= usize::MAX,
    ensures
        rank_order(keys, n).len() == n,
        forall|j: int| 0 <= j < n ==> #[trigger] rank_order(keys, n)[j] < n,
        forall|a: int, b: int| 0 <= a < b < n ==> #[trigger] rank_order(keys, n)[a] != #[trigger] rank_order(keys, n)[b],
        forall|a: int, b: int| 0 <= a < b < n ==> !ranks_before(keys[#[trigger] rank_order(keys, n)[b] as int],
            keys[#[trigger] rank_order(keys, n)[a] as int]),
    decreases n,
{
    if n > 0 {
        lemma_rank_order_sorted(keys, n - 1);
        let o = rank_order(keys, n - 1);
        let x = keys[n - 1];
        lemma_rank_pos_props(keys, o, x);
        let p = rank_pos(keys, o, x);
        let o2 = o.insert(p, (n - 1) as usize);
        assert(o2 == rank_order(keys, n));
        assert forall|j: int| 0 <= j < n implies #[trigger] o2[j] < n by {
            if j < p {
                assert(o2[j] == o[j]);
            } else if j > p {
                assert(o2[j] == o[j - 1]);
            }
        }
        assert forall|a: int, b: int| 0 <= a < b < n implies #[trigger] o2[a] != #[trigger] o2[b]
            && !ranks_before(keys[o2[b] as int], keys[o2[a] as int]) by {
            if b < p {
                assert(o2[a] == o[a] && o2[b] == o[b]);
            } else if a > p {
                assert(o2[a] == o[a - 1] && o2[b] == o[b - 1]);
            } else if a < p && b > p {
                assert(o2[a] == o[a] && o2[b] == o[b - 1]);
                if ranks_before(keys[o[b - 1] as int], keys[o[a] as int]) {
                    assert(false);
                }
            } else if a == p {
                assert(o2[a] == (n - 1) as usize && o2[b] == o[b - 1]);
                if ranks_before(keys[o[b - 1] as int], x) {
                    if b - 1 == p {
                        lemma_ranks_asymmetric(x, keys[o[p] as int]);
                    } else {
                        lemma_ranks_transitive(keys[o[b - 1] as int], x, keys[o[p] as int]);
                    }
                }
            } else {
                assert(b == p && o2[b] == (n - 1) as usize && o2[a] == o[a]);
            }
        }
    }
}

/// Whether hit `a` ranks strictly before hit `b` (see [`ranks_before`]).
fn hit_ranks_before(scores: &Vec<i32>, mtimes: &Vec<String>, a: usize, b: usize) -> (r: bool)
    requires
        scores@.len() == mtimes@.len(),
        a < scores@.len(),
        b < scores@.len(),
    ensures
        r == ranks_before(hit_keys(scores@, mtimes@)[a as int], hit_keys(scores@, mtimes@)[b as int]),
{
    if scores[a] != scores[b] {
        return scores[a] > scores[b];
    }
    let mine = to_chars(mtimes[a].as_str());
    let theirs = to_chars(mtimes[b].as_str());
    crate::order::lex_lt_exec(&theirs, &mine)
}

/// Search hits in rank order (see [`rank_order`]): the indices of the hits
/// with scores `scores` and modification times `mtimes`, best first, ties
/// in their given order.
pub fn rank_hits(scores: &Vec<i32>, mtimes: &Vec<String>) -> (r: Vec<usize>)
    requires
        scores@.len() == mtimes@.len(),
    ensures
        r@ == rank_order(hit_keys(scores@, mtimes@), scores@.len() as int),
        r@.len() == scores@.len(),
        forall|j: int| 0 <= j < r@.len() ==> #[trigger] r@[j] < scores@.len(),
        forall|a: int, b: int| 0 <= a < b < r@.len() ==> #[trigger] r@[a] != #[trigger] r@[b],
        forall|a: int, b: int| 0 <= a < b < r@.len() ==> !ranks_before(hit_keys(scores@, mtimes@)[#[trigger] r@[b] as int],
            hit_keys(scores@, mtimes@)[#[trigger] r@[a] as int]),
{
    let ghost ks = hit_keys(scores@, mtimes@);
    let mut order: Vec<usize> = Vec::new();
    let mut n: usize = 0;
    while n < scores.len()
        invariant
            n <= scores@.len(),
            scores@.len() == mtimes@.len(),
            ks == hit_keys(scores@, mtimes@),
            order@ == rank_order(ks, n as int),
            order@.len() == n,
            forall|j: int| 0 <= j < order@.len() ==> #[trigger] order@[j] < n,
        decreases scores@.len() - n,
    {
        let mut k: usize = 0;
        while k < order.len() && !hit_ranks_before(scores, mtimes, n, order[k])
            invariant
                k <= order@.len(),
                n < scores@.len(),
                scores@.len() == mtimes@.len(),
                ks == hit_keys(scores@, mtimes@),
                forall|j: int| 0 <= j < order@.len() ==> #[trigger] order@[j] < n,
                forall|j: int| 0 <= j < k ==> !ranks_before(ks[n as int], ks[#[trigger] order@[j] as int]),
            decreases order@.len() - k,
        {
            k += 1;
        }
        proof {
            if k < order@.len() {
                assert(ranks_before(ks[n as int], ks[order@[k as int] as int]));
            }
            lemma_rank_pos(ks, order@, ks[n as int], k as int);
        }
        let ghost o = order@;
        order.insert(k, n);
        proof {
            assert forall|j: int| 0 <= j < order@.len() implies #[trigger] order@[j] < n + 1 by {
                if j < k {
                    assert(order@[j] == o[j]);
                } else if j > k {
                    assert(order@[j] == o[j - 1]);
                }
            }
        }
        n += 1;
    }
    proof {
        lemma_rank_order_sorted(ks, n as int);
    }
    order
}

} // verus!
