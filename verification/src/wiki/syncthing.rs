//! Optional Syncthing status of a wiki root (never used for content
//! discovery): a `.stfolder` marker above it, or a configured Syncthing
//! folder that contains it.

use vstd::prelude::*;
use crate::text::{trim, trim_str, to_chars, from_chars};

verus! {

/// A Syncthing folder as its REST API lists it.
#[derive(Clone, Debug)]
pub struct SyncthingFolder {
    pub id: String,
    pub label: String,
    pub path: String,
    pub paused: bool,
}

/// Syncthing status of a wiki root.
#[derive(Clone, Debug)]
pub struct SyncthingStatus {
    /// Whether this wiki root sits under a configured Syncthing folder.
    pub under_syncthing: bool,
    /// True when a `.stfolder` marker was found walking parents (no API needed).
    pub marker_detected: bool,
    pub folder: Option<SyncthingFolder>,
    pub error: Option<String>,
}

/// How to reach Syncthing's REST API.
#[derive(Clone, Debug)]
pub struct SyncthingClientConfig {
    /// e.g. `http://127.0.0.1:8384`
    pub address: String,
    pub api_key: String,
}

impl SyncthingClientConfig {
    /// The local default address, with no key.
    pub fn with_defaults() -> (r: SyncthingClientConfig)
        ensures
            r.address@ == crate::models::DEFAULT_SYNCTHING_ADDRESS@,
            r.api_key@.len() == 0,
    {
        SyncthingClientConfig {
            address: from_chars(&to_chars(crate::models::DEFAULT_SYNCTHING_ADDRESS)),
            api_key: String::new(),
        }
    }

    /// Usable once an API key (other than whitespace) is set.
    pub fn has_key(&self) -> (r: bool)
        ensures
            r == (trim(self.api_key@).len() > 0),
    {
        trim_str(self.api_key.as_str()).as_str().unicode_len() > 0
    }
}

/// Name of the marker entry Syncthing keeps at the root of a shared folder.
pub const STFOLDER_MARKER: &'static str = ".stfolder";

/// Whether something exists at `path` (`Path::exists`). It depends on the
/// file system, so nothing is promised of it.
#[verifier::external_body]
pub(crate) fn path_exists(path: &str) -> bool {
    std::path::Path::new(path).exists()
}

/// `dir` joined with the relative name `name` as `Path::join` gives it.
pub uninterp spec fn path_joined(dir: Seq<char>, name: Seq<char>) -> Seq<char>;

/// `dir` joined with `name` (`Path::join`), named by [`path_joined`].
#[verifier::external_body]
fn path_join(dir: &str, name: &str) -> (r: String)
    ensures
        r@ == path_joined(dir@, name@),
{
    std::path::Path::new(dir).join(name).to_string_lossy().into_owned()
}

/// The parent of a path as `std::path::Path::parent` gives it: the path
/// without its final component.
pub uninterp spec fn path_parent(path: Seq<char>) -> Option<Seq<char>>;

/// The parent of `path` (`Path::parent`), named by [`path_parent`]; the
/// parent is a strict prefix of the path, so shorter.
#[verifier::external_body]
fn parent_of(path: &str) -> (r: Option<String>)
    ensures
        r matches Some(p) ==> path_parent(path@) == Some(p@) && p@.len() < path@.len(),
        r is None ==> path_parent(path@) is None,
{
    std::path::Path::new(path).parent().map(|p| p.to_string_lossy().into_owned())
}

/// The directories searched for a marker: `path`, then each parent in turn,
/// up to the one that has none.
pub fn stfolder_candidates(path: &str) -> (r: Vec<String>)
    ensures
        r@.len() >= 1,
        r@[0]@ == path@,
        forall|k: int| 0 <= k < r@.len() - 1 ==> path_parent(#[trigger] r@[k]@) == Some(r@[k + 1]@),
        path_parent(r@.last()@) is None,
{
    let mut r: Vec<String> = Vec::new();
    let mut current = from_chars(&to_chars(path));
    loop
        invariant
            r@.len() == 0 ==> current@ == path@,
            r@.len() > 0 ==> r@[0]@ == path@ && path_parent(r@.last()@) == Some(current@),
            forall|k: int| 0 <= k < r@.len() - 1 ==> path_parent(#[trigger] r@[k]@) == Some(r@[k + 1]@),
        decreases current@.len(),
    {
        let next = parent_of(current.as_str());
        let ghost before = r@;
        r.push(current);
        proof {
            assert forall|k: int| 0 <= k < r@.len() - 1 implies path_parent(#[trigger] r@[k]@) == Some(r@[k + 1]@) by {
                if k < before.len() - 1 {
                    assert(r@[k] == before[k] && r@[k + 1] == before[k + 1]);
                } else {
                    assert(r@[k] == before.last());
                }
            }
        }
        match next {
            Some(p) => {
                current = p;
            },
            None => {
                return r;
            },
        }
    }
}

/// The marker paths probed, in order: the marker name joined to each of
/// `dirs`.
pub fn stfolder_probes(dirs: &Vec<String>) -> (r: Vec<String>)
    ensures
        r@.len() == dirs@.len(),
        forall|j: int| 0 <= j < r@.len() ==> (#[trigger] r@[j])@ == path_joined(dirs@[j]@, STFOLDER_MARKER@),
{
    let mut r: Vec<String> = Vec::new();
    let mut k: usize = 0;
    while k < dirs.len()
        invariant
            k <= dirs@.len(),
            r@.len() == k,
            forall|j: int| 0 <= j < k ==> (#[trigger] r@[j])@ == path_joined(dirs@[j]@, STFOLDER_MARKER@),
        decreases dirs@.len() - k,
    {
        r.push(path_join(dirs[k].as_str(), STFOLDER_MARKER));
        k += 1;
    }
    r
}

/// Whether any probe found its marker.
pub fn any_found(found: &Vec<bool>) -> (r: bool)
    ensures
        r == found@.contains(true),
{
    let mut k: usize = 0;
    while k < found.len()
        invariant
            k <= found@.len(),
            forall|j: int| 0 <= j < k ==> !#[trigger] found@[j],
        decreases found@.len() - k,
    {
        if found[k] {
            assert(found@[k as int]);
            return true;
        }
        k += 1;
    }
    false
}

/// `dirs` are `path` and each parent in turn, up to the one that has none.
pub open spec fn ancestor_chain(dirs: Seq<String>, path: Seq<char>) -> bool {
    &&& dirs.len() >= 1
    &&& dirs[0]@ == path
    &&& forall|k: int| 0 <= k < dirs.len() - 1 ==> path_parent(#[trigger] dirs[k]@) == Some(dirs[k + 1]@)
    &&& path_parent(dirs.last()@) is None
}

/// The marker path of `dir` was checked for existence and reported
/// `found` (a call of [`path_exists`] on it returned that).
pub closed spec fn probed(dir: Seq<char>, found: bool) -> bool {
    exists|p: &str| p@ == path_joined(dir, STFOLDER_MARKER@) && #[trigger] call_ensures(path_exists, (p,), found)
}

/// Whether a `.stfolder` marker sits in `path` or any directory above it:
/// the marker path in each of [`stfolder_candidates`] (see
/// [`stfolder_probes`]) is checked for existence; the answer is yes when
/// one was reported present and no when every one was reported absent.
pub fn detect_stfolder_marker(path: &str) -> (r: bool)
    ensures
        exists|dirs: Seq<String>| #[trigger] ancestor_chain(dirs, path@) && {
            &&& r ==> exists|k: int| 0 <= k < dirs.len() && #[trigger] probed(dirs[k]@, true)
            &&& !r ==> forall|k: int| 0 <= k < dirs.len() ==> #[trigger] probed(dirs[k]@, false)
        },
{
    let dirs = stfolder_candidates(path);
    let probes = stfolder_probes(&dirs);
    let mut found: Vec<bool> = Vec::new();
    let mut k: usize = 0;
    while k < probes.len()
        invariant
            k <= probes@.len(),
            probes@.len() == dirs@.len(),
            forall|j: int| 0 <= j < probes@.len() ==> (#[trigger] probes@[j])@ == path_joined(dirs@[j]@, STFOLDER_MARKER@),
            found@.len() == k,
            forall|j: int| 0 <= j < k ==> probed(dirs@[j]@, #[trigger] found@[j]),
        decreases probes@.len() - k,
    {
        let p: &str = probes[k].as_str();
        let b = path_exists(p);
        proof {
            assert(call_ensures(path_exists, (p,), b));
            assert(probed(dirs@[k as int]@, b));
        }
        found.push(b);
        k += 1;
    }
    let r = any_found(&found);
    proof {
        assert(ancestor_chain(dirs@, path@));
        if r {
            let j = choose|j: int| 0 <= j < found@.len() && found@[j] == true;
            assert(probed(dirs@[j]@, found@[j]));
        } else {
            assert forall|j: int| 0 <= j < dirs@.len() implies #[trigger] probed(dirs@[j]@, false) by {
                assert(found@[j] == false);
                assert(probed(dirs@[j]@, found@[j]));
            }
        }
    }
    r
}

/// Position of the folder a root counts as under: among the folders that
/// contain it, the one with the longest path (bytes), the last of equals.
pub open spec fn best_from(paths: Seq<nat>, under: Seq<bool>, n: int) -> Option<int>
    decreases n,
{
    if n <= 0 {
        None
    } else {
        match best_from(paths, under, n - 1) {
            Some(b) => if under[n - 1] && paths[n - 1] >= paths[b] {
                Some(n - 1)
            } else {
                Some(b)
            },
            None => if under[n - 1] {
                Some(n - 1)
            } else {
                None
            },
        }
    }
}

/// Byte length of the UTF-8 form of a character.
pub open spec fn utf8_len(c: char) -> nat {
    if (c as u32) < 0x80 {
        1
    } else if (c as u32) < 0x800 {
        2
    } else if (c as u32) < 0x10000 {
        3
    } else {
        4
    }
}

/// Byte length of the UTF-8 form of a string (`str::len`).
pub open spec fn byte_len(s: Seq<char>) -> nat
    decreases s.len(),
{
    if s.len() == 0 {
        0
    } else {
        byte_len(s.drop_last()) + utf8_len(s.last())
    }
}

/// The byte length of a string.
pub fn str_byte_len(s: &str) -> (r: u128)
    ensures
        r == byte_len(s@),
{
    let v = to_chars(s);
    let mut n: u128 = 0;
    let mut i: usize = 0;
    while i < v.len()
        invariant
            i <= v@.len(),
            v@ == s@,
            n == byte_len(v@.subrange(0, i as int)),
            n <= 4 * i,
        decreases v@.len() - i,
    {
        assert(v@.subrange(0, i + 1).drop_last() == v@.subrange(0, i as int));
        let c = v[i] as u32;
        let w: u128 = if c < 0x80 { 1 } else if c < 0x800 { 2 } else if c < 0x10000 { 3 } else { 4 };
        n = n + w;
        i += 1;
    }
    assert(v@.subrange(0, v@.len() as int) == v@);
    n
}

/// The listing of Syncthing folders for a root: not asked (no API key),
/// failed with a message, or each folder with whether the root lies under
/// it.
#[derive(Clone, Debug)]
pub enum FolderListing {
    NotConfigured,
    Failed(String),
    Listed(Vec<(SyncthingFolder, bool)>),
}

/// The byte lengths of the folders' paths.
pub open spec fn folder_path_lens(f: Seq<(SyncthingFolder, bool)>) -> Seq<nat> {
    f.map_values(|x: (SyncthingFolder, bool)| byte_len(x.0.path@))
}

/// Whether the root lies under each folder.
pub open spec fn folder_unders(f: Seq<(SyncthingFolder, bool)>) -> Seq<bool> {
    f.map_values(|x: (SyncthingFolder, bool)| x.1)
}

fn copy_folder(f: &SyncthingFolder) -> (r: SyncthingFolder)
    ensures
        r == *f,
{
    SyncthingFolder { id: f.id.clone(), label: f.label.clone(), path: f.path.clone(), paused: f.paused }
}

/// Syncthing status of a root: a marker above it always counts; without a
/// key only the marker is known; a failed listing is reported; else the
/// root's folder is the longest containing one (see [`best_from`]).
pub fn status_for_path(marker_detected: bool, listing: &FolderListing) -> (r: SyncthingStatus)
    ensures
        r.marker_detected == marker_detected,
        listing is NotConfigured ==> r.under_syncthing == marker_detected && r.folder is None && r.error is None,
        listing matches FolderListing::Failed(m) ==> r.under_syncthing == marker_detected && r.folder is None
            && (r.error matches Some(e) && e@ == m@),
        listing matches FolderListing::Listed(f) ==> r.error is None && match best_from(folder_path_lens(f@),
            folder_unders(f@), f@.len() as int) {
            Some(b) => r.folder == Some(f@[b].0) && r.under_syncthing,
            None => r.folder is None && r.under_syncthing == marker_detected,
        },
{
    match listing {
        FolderListing::NotConfigured => SyncthingStatus {
            under_syncthing: marker_detected,
            marker_detected,
            folder: None,
            error: None,
        },
        FolderListing::Failed(m) => SyncthingStatus {
            under_syncthing: marker_detected,
            marker_detected,
            folder: None,
            error: Some(m.clone()),
        },
        FolderListing::Listed(folders) => {
            let ghost lens = folder_path_lens(folders@);
            let ghost unders = folder_unders(folders@);
            let mut best: Option<usize> = None;
            let mut best_len: u128 = 0;
            let mut i: usize = 0;
            while i < folders.len()
                invariant
                    i <= folders@.len(),
                    lens == folder_path_lens(folders@),
                    unders == folder_unders(folders@),
                    best_from(lens, unders, i as int) == match best {
                        Some(b) => Some(b as int),
                        None => None::<int>,
                    },
                    best matches Some(b) ==> b < i && best_len == lens[b as int],
                    best is None ==> best_len == 0,
                decreases folders@.len() - i,
            {
                if folders[i].1 {
                    let len = str_byte_len(folders[i].0.path.as_str());
                    if len >= best_len {
                        best_len = len;
                        best = Some(i);
                    }
                }
                i += 1;
            }
            let folder = match best {
                Some(b) => Some(copy_folder(&folders[b].0)),
                None => None,
            };
            SyncthingStatus {
                under_syncthing: folder.is_some() || marker_detected,
                marker_detected,
                folder,
                error: None,
            }
        },
    }
}

} // verus!
