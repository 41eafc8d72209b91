//! Decisions of the wiki index: labels of roots, reviving roots, whether a
//! scanned page is new or changed, and the relative paths of new pages.

use vstd::prelude::*;
use crate::models::Error;
use crate::wiki::types::WikiEventType;
use crate::text::{trim, trim_str, to_chars, from_chars, lowercase, lowercase_chars, ends_with, contains_seq, contains_chars, trim_start_char};

verus! {

/// Error text for a blank root path.
pub open spec fn root_path_required() -> Seq<char> {
    "wiki root path is required"@
}

/// The path of a root to add as given: trimmed, and not blank.
pub fn root_path_input(raw: &str) -> (r: Result<String, Error>)
    ensures
        trim(raw@).len() == 0 <==> r is Err,
        r matches Ok(p) ==> p@ == trim(raw@),
        r matches Err(e) ==> e matches Error::Message(m) && m@ == root_path_required(),
{
    let t = trim_str(raw);
    if t.as_str().unicode_len() == 0 {
        return Err(Error::Message(from_chars(&to_chars("wiki root path is required"))));
    }
    Ok(t)
}

/// A root's label: the given one trimmed when not blank, else the
/// directory's name, else its whole path.
pub open spec fn label_of(label: Option<Seq<char>>, path: Seq<char>, file_name: Option<Seq<char>>) -> Seq<char> {
    match label {
        Some(l) if trim(l).len() > 0 => trim(l),
        _ => match file_name {
            Some(f) => f,
            None => path,
        },
    }
}

/// A root's label (see [`label_of`]).
pub fn root_label(label: &Option<String>, path: &str, file_name: &Option<String>) -> (r: String)
    ensures
        r@ == label_of(crate::cron::opt_view(*label), path@, crate::cron::opt_view(*file_name)),
{
    if let Some(l) = label {
        let t = trim_str(l.as_str());
        if t.as_str().unicode_len() > 0 {
            return t;
        }
    }
    match file_name {
        Some(f) => f.clone(),
        None => from_chars(&to_chars(path)),
    }
}

/// How adding a root at a path already known revives it; a new path gets
/// the fresh id.
pub fn root_upsert(existing: Option<u128>, fresh: u128) -> (r: (u128, WikiEventType, bool))
    ensures
        existing matches Some(id) ==> r == (id, WikiEventType::Updated, true),
        existing is None ==> r == (fresh, WikiEventType::Created, false),
{
    match existing {
        Some(id) => (id, WikiEventType::Updated, true),
        None => (fresh, WikiEventType::Created, false),
    }
}

/// The id of a scanned page and the event it gets: a page already indexed
/// at its path keeps its id and is updated when its content hash changed;
/// a new page takes the id from its header (or a fresh one), unless another
/// page has it, and is created.
pub open spec fn index_outcome(
    existing: Option<(u128, Seq<char>)>,
    content_hash: Seq<char>,
    page_id: u128,
    page_id_taken: bool,
    fresh: u128,
) -> (u128, Option<WikiEventType>) {
    match existing {
        Some((id, old_hash)) => (id, if old_hash == content_hash { None } else { Some(WikiEventType::Updated) }),
        None => (if page_id_taken { fresh } else { page_id }, Some(WikiEventType::Created)),
    }
}

/// The id and event of a scanned page (see [`index_outcome`]).
pub fn index_decision(
    existing: &Option<(u128, String)>,
    content_hash: &str,
    page_id: u128,
    page_id_taken: bool,
    fresh: u128,
) -> (r: (u128, Option<WikiEventType>))
    ensures
        r == index_outcome(match *existing {
            Some((id, h)) => Some((id, h@)),
            None => None,
        }, content_hash@, page_id, page_id_taken, fresh),
{
    match existing {
        Some((id, old_hash)) => {
            if crate::text::str_eq(old_hash.as_str(), content_hash) {
                (*id, None)
            } else {
                (*id, Some(WikiEventType::Updated))
            }
        },
        None => (if page_id_taken { fresh } else { page_id }, Some(WikiEventType::Created)),
    }
}

/// `s` with every `\` turned into `/`.
pub open spec fn slashes(s: Seq<char>) -> Seq<char> {
    s.map_values(|c: char| if c == '\\' { '/' } else { c })
}

/// The relative path of a new page: trimmed, backslashes as slashes,
/// leading slashes dropped, `.md` appended unless it already ends so (case
/// ignored), and `..` refused.
pub open spec fn rel_path_of(raw: Seq<char>) -> Result<Seq<char>, Seq<char>> {
    let rel = trim_start_char(slashes(trim(raw)), '/');
    if rel.len() == 0 {
        Err("rel_path is required"@)
    } else {
        let with_ext = if ends_with(lowercase(rel), ".md"@) { rel } else { rel + ".md"@ };
        if contains_seq(with_ext, ".."@) {
            Err("rel_path must not contain '..'"@)
        } else {
            Ok(with_ext)
        }
    }
}

/// The relative path of a new page (see [`rel_path_of`]).
pub fn normalize_rel_path(raw: &str) -> (r: Result<String, Error>)
    ensures
        match r {
            Ok(p) => rel_path_of(raw@) == Ok::<Seq<char>, Seq<char>>(p@),
            Err(e) => e matches Error::Message(m) && rel_path_of(raw@) == Err::<Seq<char>, Seq<char>>(m@),
        },
{
    let t = to_chars(trim_str(raw).as_str());
    let mut s: Vec<char> = Vec::new();
    let mut i: usize = 0;
    while i < t.len()
        invariant
            i <= t@.len(),
            t@ == trim(raw@),
            s@ == slashes(t@.subrange(0, i as int)),
        decreases t@.len() - i,
    {
        s.push(if t[i] == '\\' { '/' } else { t[i] });
        assert(slashes(t@.subrange(0, i + 1)) == slashes(t@.subrange(0, i as int)).push(if t@[i as int] == '\\' { '/' } else { t@[i as int] }));
        i += 1;
    }
    assert(t@.subrange(0, t@.len() as int) == t@);
    let mut k: usize = 0;
    while k < s.len() && s[k] == '/'
        invariant
            k <= s@.len(),
            forall|j: int| 0 <= j < k ==> #[trigger] s@[j] == '/',
        decreases s@.len() - k,
    {
        k += 1;
    }
    proof {
        crate::text::lemma_trim_start_char_at(s@, '/', k as int);
    }
    let mut rel = crate::text::slice_to_vec(&s, k, s.len());
    if rel.len() == 0 {
        return Err(Error::Message(from_chars(&to_chars("rel_path is required"))));
    }
    let low = lowercase_chars(&rel);
    let ext = to_chars(".md");
    let has_ext = low.len() >= ext.len() && crate::text::occurs_at_exec(&low, &ext, low.len() - ext.len());
    proof {
        reveal_strlit(".md");
        if ends_with(low@, ".md"@) {
            assert(low@.len() >= 3);
        }
    }
    if !has_ext {
        crate::text::push_all(&mut rel, &ext);
    }
    let dots = to_chars("..");
    if contains_chars(&rel, &dots) {
        return Err(Error::Message(from_chars(&to_chars("rel_path must not contain '..'"))));
    }
    Ok(from_chars(&rel))
}

/// Whether the index walks into a directory entry named `name`: hidden
/// entries (a leading `.`, which covers `.git` and `.stversions`) and
/// `node_modules` directories are skipped.
pub open spec fn walked(name: Seq<char>, is_dir: bool) -> bool {
    !(name.len() > 0 && name[0] == '.') && !(is_dir && name == "node_modules"@)
}

/// Whether the index walks into an entry (see [`walked`]).
pub fn indexable_entry(name: &str, is_dir: bool) -> (r: bool)
    ensures
        r == walked(name@, is_dir),
{
    let v = to_chars(name);
    if v.len() > 0 && v[0] == '.' {
        return false;
    }
    !(is_dir && crate::text::str_eq(name, "node_modules"))
}

/// The pages of a root no longer found on disk: those whose path is not
/// among the `seen` paths, in the given order.
pub open spec fn missing(pages: Seq<(u128, Seq<char>)>, seen: Seq<Seq<char>>) -> Seq<u128>
    decreases pages.len(),
{
    if pages.len() == 0 {
        Seq::empty()
    } else {
        let rest = missing(pages.drop_last(), seen);
        if seen.contains(pages.last().1) {
            rest
        } else {
            rest.push(pages.last().0)
        }
    }
}

/// The ids of indexed pages whose files were not seen (see [`missing`]).
pub fn missing_pages(pages: &Vec<(u128, String)>, seen: &Vec<String>) -> (r: Vec<u128>)
    ensures
        r@ == missing(pages@.map_values(|p: (u128, String)| (p.0, p.1@)), seen@.map_values(|x: String| x@)),
{
    let ghost pv = pages@.map_values(|p: (u128, String)| (p.0, p.1@));
    let ghost sv = seen@.map_values(|x: String| x@);
    let mut out: Vec<u128> = Vec::new();
    let mut i: usize = 0;
    while i < pages.len()
        invariant
            i <= pages@.len(),
            pv == pages@.map_values(|p: (u128, String)| (p.0, p.1@)),
            sv == seen@.map_values(|x: String| x@),
            out@ == missing(pv.take(i as int), sv),
        decreases pages@.len() - i,
    {
        proof {
            assert(pv.take(i as int + 1).drop_last() =~= pv.take(i as int));
        }
        let mut found = false;
        let mut j: usize = 0;
        while j < seen.len()
            invariant
                i < pages@.len(),
                j <= seen@.len(),
                sv == seen@.map_values(|x: String| x@),
                found == (exists|k: int| 0 <= k < j && #[trigger] sv[k] == pages@[i as int].1@),
            decreases seen@.len() - j,
        {
            proof {
                assert(sv[j as int] == seen@[j as int]@);
            }
            if crate::text::str_eq(seen[j].as_str(), pages[i].1.as_str()) {
                found = true;
            }
            j += 1;
        }
        proof {
            assert(pv.take(i as int + 1).last() == pv[i as int]);
            if found {
                let k = choose|k: int| 0 <= k < seen@.len() && #[trigger] sv[k] == pages@[i as int].1@;
                assert(sv.contains(pv[i as int].1));
            } else {
                assert(!sv.contains(pv[i as int].1));
            }
        }
        if !found {
            out.push(pages[i].0);
        }
        i += 1;
    }
    proof {
        assert(pv.take(pages@.len() as int) =~= pv);
    }
    out
}

} // verus!
