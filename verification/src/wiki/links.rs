//! Wiki-style `[[target]]` and markdown `[text](target)` link extraction
//! (the rebuildable link cache of a page).

use vstd::prelude::*;
use crate::text::{trim, starts_with, to_chars, from_chars, trim_chars, slice_to_vec};
use crate::order::{strictly_sorted, views, string_views, insert_sorted};
use crate::wiki::markdown::{find_from, find_from_exec, lemma_find_from_range};

verus! {

/// First index at or after `i` where `a` is directly followed by `b`.
pub open spec fn find_pair(c: Seq<char>, i: int, a: char, b: char) -> Option<int>
    decreases c.len() - i,
{
    if i < 0 || i + 1 >= c.len() {
        None
    } else if c[i] == a && c[i + 1] == b {
        Some(i)
    } else {
        find_pair(c, i + 1, a, b)
    }
}

pub proof fn lemma_find_pair_range(c: Seq<char>, i: int, a: char, b: char)
    ensures
        find_pair(c, i, a, b) matches Some(k) ==> i <= k && k + 1 < c.len(),
    decreases c.len() - i,
{
    if !(i < 0 || i + 1 >= c.len()) && !(c[i] == a && c[i + 1] == b) {
        lemma_find_pair_range(c, i + 1, a, b);
    }
}

/// The part of `s` before its first `|` (all of `s` when there is none).
pub open spec fn before_bar(s: Seq<char>) -> Seq<char> {
    match find_from(s, 0, '|') {
        Some(k) => s.subrange(0, k),
        None => s,
    }
}

/// Targets of `[[target]]` / `[[target|label]]` links from index `pos` on, in
/// order of appearance (empty targets skipped).
pub open spec fn wiki_links(c: Seq<char>, pos: int) -> Seq<Seq<char>>
    decreases c.len() - pos,
{
    if pos < 0 {
        seq![]
    } else {
        match find_pair(c, pos, '[', '[') {
            None => seq![],
            Some(s) => match find_pair(c, s + 2, ']', ']') {
                None => seq![],
                Some(e) => {
                    proof {
                        lemma_find_pair_range(c, pos, '[', '[');
                        lemma_find_pair_range(c, s + 2, ']', ']');
                    }
                    let target = trim(before_bar(trim(c.subrange(s + 2, e))));
                    let rest = wiki_links(c, e + 2);
                    if target.len() > 0 {
                        seq![target] + rest
                    } else {
                        rest
                    }
                },
            },
        }
    }
}

/// Whether a markdown link target belongs in the wiki graph (not a web,
/// mail or in-page anchor link).
pub open spec fn graph_target(t: Seq<char>) -> bool {
    t.len() > 0 && !starts_with(t, "http://"@) && !starts_with(t, "https://"@) && !starts_with(
        t,
        "#"@,
    ) && !starts_with(t, "mailto:"@)
}

/// Targets of markdown `[label](target)` links from index `i` on, in order
/// of appearance (web, mail and anchor targets skipped).
pub open spec fn md_links(c: Seq<char>, i: int) -> Seq<Seq<char>>
    decreases c.len() - i,
{
    if i < 0 || i >= c.len() {
        seq![]
    } else {
        proof {
            lemma_find_from_range(c, i + 1, ']');
        }
        match find_from(c, i + 1, ']') {
            Some(le) if c[i] == '[' && le + 1 < c.len() && c[le + 1] == '(' && find_from(
                c,
                le + 2,
                ')',
            ) is Some => {
                let ue = find_from(c, le + 2, ')').unwrap();
                proof {
                    lemma_find_from_range(c, le + 2, ')');
                }
                let target = trim(c.subrange(le + 2, ue));
                let rest = md_links(c, ue + 1);
                if graph_target(target) {
                    seq![target] + rest
                } else {
                    rest
                }
            },
            _ => md_links(c, i + 1),
        }
    }
}

/// Every link target of a page body: wiki links and graph markdown links.
pub open spec fn link_candidate(body: Seq<char>, t: Seq<char>) -> bool {
    wiki_links(body, 0).contains(t) || md_links(body, 0).contains(t)
}

/// Executable [`find_pair`].
fn find_pair_exec(c: &[char], start: usize, a: char, b: char) -> (r: Option<usize>)
    requires
        start <= c@.len(),
    ensures
        match r {
            Some(k) => find_pair(c@, start as int, a, b) == Some(k as int),
            None => find_pair(c@, start as int, a, b) is None,
        },
{
    let mut i = start;
    while i < c.len() && c.len() - i > 1
        invariant
            start <= i <= c@.len(),
            find_pair(c@, start as int, a, b) == find_pair(c@, i as int, a, b),
        decreases c@.len() - i,
    {
        if c[i] == a && c[i + 1] == b {
            return Some(i);
        }
        i += 1;
    }
    None
}

/// Collect `[[target]]` wiki links and markdown `[text](target)` link
/// targets, sorted and without duplicates.
pub fn extract_link_targets(body: &str) -> (r: Vec<String>)
    ensures
        strictly_sorted(string_views(r@)),
        forall|t: Seq<char>| #[trigger] string_views(r@).contains(t) <==> link_candidate(body@, t),
{
    let c = to_chars(body);
    let n = c.len();
    let mut targets: Vec<Vec<char>> = Vec::new();
    let ghost mut seen: Seq<Seq<char>> = seq![];

    // [[target]] / [[target|label]]
    let mut pos: usize = 0;
    loop
        invariant
            pos <= n == c@.len(),
            c@ == body@,
            strictly_sorted(views(targets@)),
            seen + wiki_links(c@, pos as int) == wiki_links(c@, 0),
            forall|t: Seq<char>| #[trigger] views(targets@).contains(t) <==> seen.contains(t),
        ensures
            strictly_sorted(views(targets@)),
            seen == wiki_links(c@, 0),
            forall|t: Seq<char>| #[trigger] views(targets@).contains(t) <==> seen.contains(t),
        decreases n - pos,
    {
        let s = match find_pair_exec(&c, pos, '[', '[') {
            Some(s) => s,
            None => {
                assert(seen + seq![] == seen);
                break ;
            },
        };
        proof {
            lemma_find_pair_range(c@, pos as int, '[', '[');
        }
        let e = match find_pair_exec(&c, s + 2, ']', ']') {
            Some(e) => e,
            None => {
                assert(seen + seq![] == seen);
                break ;
            },
        };
        proof {
            lemma_find_pair_range(c@, s + 2, ']', ']');
        }
        let raw = trim_chars(&slice_to_vec(&c, s + 2, e));
        let bar = find_from_exec(&raw, 0, '|');
        let head = match bar {
            Some(k) => {
                proof {
                    lemma_find_from_range(raw@, 0, '|');
                }
                slice_to_vec(&raw, 0, k)
            },
            None => raw,
        };
        let target = trim_chars(&head);
        let ghost tv = target@;
        if target.len() > 0 {
            proof {
                assert(wiki_links(c@, pos as int) == seq![tv] + wiki_links(c@, e + 2));
                assert(seen.push(tv) + wiki_links(c@, e + 2) == seen + wiki_links(c@, pos as int));
            }
            let ghost pv = views(targets@);
            let ghost ps = seen;
            assert(forall|t: Seq<char>| #[trigger] pv.contains(t) <==> ps.contains(t));
            insert_sorted(&mut targets, target);
            proof {
                seen = seen.push(tv);
                assert forall|t: Seq<char>| #[trigger] views(targets@).contains(t) <==> seen.contains(t) by {
                    assert(views(targets@).contains(t) <==> pv.contains(t) || t == tv);
                    assert(pv.contains(t) <==> ps.contains(t));
                    lemma_push_contains(ps, tv, t);
                }
            }
        } else {
            proof {
                assert(wiki_links(c@, pos as int) == wiki_links(c@, e + 2));
            }
        }
        pos = e + 2;
    }

    // [label](target) — skipping web, mail and anchor targets.
    let ghost seen_wiki = seen;
    let ghost mut seen_md: Seq<Seq<char>> = seq![];
    let mut i: usize = 0;
    while i < n
        invariant
            i <= n == c@.len(),
            c@ == body@,
            seen_wiki == wiki_links(c@, 0),
            strictly_sorted(views(targets@)),
            seen_md + md_links(c@, i as int) == md_links(c@, 0),
            forall|t: Seq<char>| #[trigger] views(targets@).contains(t) <==> seen_wiki.contains(t) || seen_md.contains(t),
        decreases n - i,
    {
        proof {
            lemma_find_from_range(c@, i + 1, ']');
        }
        if c[i] == '[' {
            if let Some(le) = find_from_exec(&c, i + 1, ']') {
                if le + 1 < n && c[le + 1] == '(' {
                    if let Some(ue) = find_from_exec(&c, le + 2, ')') {
                        proof {
                            lemma_find_from_range(c@, le + 2, ')');
                        }
                        let target = trim_chars(&slice_to_vec(&c, le + 2, ue));
                        let ghost tv = target@;
                        let keep = target.len() > 0 && !has_prefix(&target, "http://") && !has_prefix(
                            &target,
                            "https://",
                        ) && !has_prefix(&target, "#") && !has_prefix(&target, "mailto:");
                        if keep {
                            proof {
                                assert(md_links(c@, i as int) == seq![tv] + md_links(c@, ue + 1));
                                assert(seen_md.push(tv) + md_links(c@, ue + 1) == seen_md + md_links(c@, i as int));
                            }
                            let ghost pv = views(targets@);
                            let ghost ps = seen_md;
                            assert(forall|t: Seq<char>| #[trigger] pv.contains(t) <==> seen_wiki.contains(t) || ps.contains(t));
                            insert_sorted(&mut targets, target);
                            proof {
                                seen_md = seen_md.push(tv);
                                assert forall|t: Seq<char>| #[trigger] views(targets@).contains(t) <==> seen_wiki.contains(t) || seen_md.contains(t) by {
                                    assert(views(targets@).contains(t) <==> pv.contains(t) || t == tv);
                                    assert(pv.contains(t) <==> seen_wiki.contains(t) || ps.contains(t));
                                    lemma_push_contains(ps, tv, t);
                                }
                            }
                        } else {
                            assert(md_links(c@, i as int) == md_links(c@, ue + 1));
                        }
                        i = ue + 1;
                        continue ;
                    }
                }
            }
        }
        assert(md_links(c@, i as int) == md_links(c@, i + 1));
        i += 1;
    }
    proof {
        assert(seen_md + seq![] == seen_md);
        assert(seen_md == md_links(c@, 0));
    }
    let mut out: Vec<String> = Vec::new();
    let mut k: usize = 0;
    while k < targets.len()
        invariant
            k <= targets@.len(),
            out@.len() == k,
            forall|j: int| 0 <= j < k ==> #[trigger] out@[j]@ == targets@[j]@,
        decreases targets@.len() - k,
    {
        out.push(from_chars(&targets[k]));
        k += 1;
    }
    proof {
        assert(string_views(out@) =~= views(targets@));
    }
    out
}

/// Whether `v` starts with the characters of `p`.
fn has_prefix(v: &[char], p: &str) -> (r: bool)
    ensures
        r == starts_with(v@, p@),
{
    let pv = to_chars(p);
    crate::text::starts_with_chars(v, &pv)
}


/// Membership in a sequence after a push.
proof fn lemma_push_contains(s: Seq<Seq<char>>, x: Seq<char>, t: Seq<char>)
    ensures
        s.push(x).contains(t) <==> s.contains(t) || t == x,
{
    let p = s.push(x);
    if s.contains(t) {
        let k = choose|k: int| 0 <= k < s.len() && s[k] == t;
        assert(p[k] == t);
    }
    if t == x {
        assert(p[s.len() as int] == t);
    }
    if p.contains(t) {
        let k = choose|k: int| 0 <= k < p.len() && p[k] == t;
        if k < s.len() {
            assert(s[k] == t);
        }
    }
}

} // verus!
