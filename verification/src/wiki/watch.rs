//! The wiki file watcher's control flags, and which files it cares about.

use vstd::prelude::*;
use crate::text::to_chars;

verus! {

/// Requests to the wiki watcher: rebuild its watches, or stop.
#[derive(Clone, Copy, Debug)]
pub struct WikiWatchState {
    pub restart: bool,
    pub stop: bool,
}

impl WikiWatchState {
    /// No request pending.
    pub fn new() -> (r: WikiWatchState)
        ensures
            !r.restart && !r.stop,
    {
        WikiWatchState { restart: false, stop: false }
    }

    /// Asks the watcher to rebuild its watches (roots changed).
    pub fn request_restart(&mut self)
        ensures
            final(self).restart,
            final(self).stop == old(self).stop,
    {
        self.restart = true;
    }

    /// Asks the watcher to stop.
    pub fn stop(&mut self)
        ensures
            final(self).stop,
            final(self).restart == old(self).restart,
    {
        self.stop = true;
    }

    /// Takes a pending restart request: whether one was pending, clearing it.
    pub fn take_restart(&mut self) -> (r: bool)
        ensures
            r == old(self).restart,
            !final(self).restart,
            final(self).stop == old(self).stop,
    {
        let r = self.restart;
        self.restart = false;
        r
    }
}

/// The extension of a path as `std::path::Path::extension` gives it.
pub uninterp spec fn path_extension(path: Seq<char>) -> Option<Seq<char>>;

/// The extension of `path` (`Path::extension`, as text when it is valid
/// UTF-8), named by [`path_extension`].
#[verifier::external_body]
fn extension_of(path: &str) -> (r: Option<String>)
    ensures
        match r {
            Some(e) => path_extension(path@) == Some(e@),
            None => path_extension(path@) is None,
        },
{
    std::path::Path::new(path).extension().and_then(|e| e.to_str()).map(|e| e.to_owned())
}

/// A character with ASCII upper case folded.
pub open spec fn ascii_fold(c: char) -> char {
    crate::store::fold_char(c)
}

/// `e` is `md` with ASCII case ignored.
pub open spec fn is_md(e: Seq<char>) -> bool {
    e.len() == 2 && ascii_fold(e[0]) == 'm' && ascii_fold(e[1]) == 'd'
}

/// Whether a path names a markdown file: its extension is `md`, ASCII case
/// ignored.
pub fn is_markdown(path: &str) -> (r: bool)
    ensures
        r == (path_extension(path@) matches Some(e) && is_md(e)),
{
    match extension_of(path) {
        Some(e) => {
            let k = crate::store::nocase_key_exec(e.as_str());
            proof {
                assert(k@.len() == e@.len());
            }
            k.len() == 2 && k[0] == 'm' && k[1] == 'd'
        },
        None => false,
    }
}

/// Whether `path` starts with `base` as `std::path::Path::starts_with`
/// compares them: whole components, not characters.
pub uninterp spec fn path_prefix(path: Seq<char>, base: Seq<char>) -> bool;

/// `Path::starts_with`: `base` is a leading run of `path`'s components.
#[verifier::external_body]
fn path_starts_with(path: &str, base: &str) -> (r: bool)
    ensures
        r == path_prefix(path@, base@),
{
    std::path::Path::new(path).starts_with(base)
}

/// A wiki root as the watcher sees it.
#[derive(Clone, Debug)]
pub struct WatchedRoot {
    pub id: u128,
    pub enabled: bool,
    pub path: String,
}

/// A change at one of the `dirty` paths concerns a root at `root`: the path
/// lies under the root, or the root under the path.
pub open spec fn touches(root: Seq<char>, dirty: Seq<Seq<char>>) -> bool {
    exists|j: int| 0 <= j < dirty.len() && (path_prefix(#[trigger] dirty[j], root) || path_prefix(root, dirty[j]))
}

/// The ids of the enabled roots that a change at the `dirty` paths
/// concerns, in the order of the roots.
pub open spec fn touched(roots: Seq<WatchedRoot>, dirty: Seq<Seq<char>>) -> Seq<u128>
    decreases roots.len(),
{
    if roots.len() == 0 {
        Seq::empty()
    } else {
        let rest = touched(roots.drop_last(), dirty);
        if roots.last().enabled && touches(roots.last().path@, dirty) {
            rest.push(roots.last().id)
        } else {
            rest
        }
    }
}

fn touches_exec(root: &str, dirty: &Vec<String>) -> (r: bool)
    ensures
        r == touches(root@, dirty@.map_values(|d: String| d@)),
{
    let ghost views = dirty@.map_values(|d: String| d@);
    let mut j: usize = 0;
    while j < dirty.len()
        invariant
            j <= dirty@.len(),
            views == dirty@.map_values(|d: String| d@),
            forall|k: int| 0 <= k < j ==> !(path_prefix(#[trigger] views[k], root@) || path_prefix(root@, views[k])),
        decreases dirty@.len() - j,
    {
        if path_starts_with(dirty[j].as_str(), root) || path_starts_with(root, dirty[j].as_str()) {
            assert(path_prefix(views[j as int], root@) || path_prefix(root@, views[j as int]));
            return true;
        }
        j += 1;
    }
    false
}

/// The enabled roots that changes at the `dirty` paths concern, to be
/// reindexed (see [`touched`]).
pub fn touched_roots(roots: &Vec<WatchedRoot>, dirty: &Vec<String>) -> (r: Vec<u128>)
    ensures
        r@ == touched(roots@, dirty@.map_values(|d: String| d@)),
{
    let ghost views = dirty@.map_values(|d: String| d@);
    let mut out: Vec<u128> = Vec::new();
    let mut i: usize = 0;
    while i < roots.len()
        invariant
            i <= roots@.len(),
            views == dirty@.map_values(|d: String| d@),
            out@ == touched(roots@.take(i as int), views),
        decreases roots@.len() - i,
    {
        proof {
            assert(roots@.take(i as int + 1).drop_last() =~= roots@.take(i as int));
        }
        if roots[i].enabled && touches_exec(roots[i].path.as_str(), dirty) {
            out.push(roots[i].id);
        }
        i += 1;
    }
    proof {
        assert(roots@.take(roots@.len() as int) =~= roots@);
    }
    out
}

} // verus!
