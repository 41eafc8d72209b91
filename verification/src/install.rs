//! Install channel detection and update helpers (shared by the CLI and the
//! desktop shell): which channel a binary came from, version comparison, and
//! release asset URLs.

use vstd::prelude::*;
use crate::text::{
    trim, trim_start_char, trim_char, to_chars, from_chars, trim_chars, slice_to_vec, push_all,
    str_eq, lemma_trim_start_char_at, lemma_trim_end_char_at, segments, split_segments,
};
use crate::order::{lex_lt, lex_lt_exec};

verus! {

pub const AUR_PACKAGE_NAME: &'static str = "jade-desktop-bin";

pub const GITHUB_REPO: &'static str = "JoelYoung01/Jade";

pub const GITHUB_RELEASES_URL: &'static str = "https://github.com/JoelYoung01/Jade/releases/latest";

pub const LATEST_JSON_URL: &'static str =
    "https://github.com/JoelYoung01/Jade/releases/latest/download/latest.json";

pub const AUR_INFO_URL: &'static str = "https://aur.archlinux.org/rpc/v5/info/jade-desktop-bin";

/// How the running binary was installed.
#[derive(Clone, Copy, Debug, PartialEq, Eq, Structural)]
pub enum InstallKind {
    Windows,
    AppImage,
    Aur,
    Deb,
    Unknown,
}

/// Wire name of an install kind.
pub open spec fn install_kind_str(k: InstallKind) -> Seq<char> {
    match k {
        InstallKind::Windows => "windows"@,
        InstallKind::AppImage => "appImage"@,
        InstallKind::Aur => "aur"@,
        InstallKind::Deb => "deb"@,
        InstallKind::Unknown => "unknown"@,
    }
}

impl InstallKind {
    pub fn as_str(self) -> (r: &'static str)
        ensures
            r@ == install_kind_str(self),
    {
        match self {
            InstallKind::Windows => "windows",
            InstallKind::AppImage => "appImage",
            InstallKind::Aur => "aur",
            InstallKind::Deb => "deb",
            InstallKind::Unknown => "unknown",
        }
    }
}

/// What was detected about the current install.
#[derive(Clone, Debug)]
pub struct InstallContext {
    pub kind: InstallKind,
    pub platform: String,
    pub distro_id: Option<String>,
    pub arch_based: bool,
    pub package_name: Option<String>,
    pub konsole_available: bool,
    pub yay_available: bool,
    pub app_image_env: Option<String>,
    pub releases_url: String,
}

/// The published AUR package version.
#[derive(Clone, Debug)]
pub struct AurPackageInfo {
    pub name: String,
    pub version: String,
    /// pkgver without the Arch pkgrel suffix (e.g. `0.1.1` from `0.1.1-1`).
    pub upstream_version: String,
}

/// The latest GitHub release (`latest.json`).
#[derive(Clone, Debug)]
pub struct LatestReleaseInfo {
    pub version: String,
    pub notes: Option<String>,
    pub pub_date: Option<String>,
}

/// Distribution ids of the Arch family.
pub open spec fn arch_family(id: Seq<char>) -> bool {
    id == "arch"@ || id == "archlinux"@ || id == "endeavouros"@ || id == "manjaro"@ || id
        == "garuda"@ || id == "cachyos"@ || id == "artix"@
}

/// Whether an os-release `ID` belongs to the Arch family.
pub fn is_arch_family_id(id: &str) -> (r: bool)
    ensures
        r == arch_family(id@),
{
    str_eq(id, "arch") || str_eq(id, "archlinux") || str_eq(id, "endeavouros") || str_eq(
        id,
        "manjaro",
    ) || str_eq(id, "garuda") || str_eq(id, "cachyos") || str_eq(id, "artix")
}

/// An os-release value without surrounding whitespace, double and single quotes.
pub open spec fn unquoted(s: Seq<char>) -> Seq<char> {
    trim_char(trim_char(trim(s), '"'), '\'')
}

/// `v` without leading and trailing copies of `c`.
fn trim_char_vec(v: &[char], c: char) -> (r: Vec<char>)
    ensures
        r@ == trim_char(v@, c),
{
    let n = v.len();
    let mut lo: usize = 0;
    while lo < n && v[lo] == c
        invariant
            lo <= n == v@.len(),
            forall|j: int| 0 <= j < lo ==> #[trigger] v@[j] == c,
        decreases n - lo,
    {
        lo += 1;
    }
    let mut hi = n;
    while hi > lo && v[hi - 1] == c
        invariant
            lo <= hi <= n == v@.len(),
            forall|j: int| hi <= j < n ==> #[trigger] v@[j] == c,
        decreases hi,
    {
        hi -= 1;
    }
    proof {
        lemma_trim_start_char_at(v@, c, lo as int);
        let t = v@.subrange(lo as int, n as int);
        assert forall|j: int| hi - lo <= j < t.len() implies #[trigger] t[j] == c by {
            assert(t[j] == v@[j + lo]);
        }
        if hi > lo {
            assert(t[hi - lo - 1] == v@[hi - 1]);
        }
        lemma_trim_end_char_at(t, c, hi - lo);
        assert(t.subrange(0, hi - lo) == v@.subrange(lo as int, hi as int));
    }
    slice_to_vec(v, lo, hi)
}

/// `v` without leading copies of `c`.
fn trim_start_char_vec(v: &[char], c: char) -> (r: Vec<char>)
    ensures
        r@ == trim_start_char(v@, c),
{
    let n = v.len();
    let mut lo: usize = 0;
    while lo < n && v[lo] == c
        invariant
            lo <= n == v@.len(),
            forall|j: int| 0 <= j < lo ==> #[trigger] v@[j] == c,
        decreases n - lo,
    {
        lo += 1;
    }
    proof {
        lemma_trim_start_char_at(v@, c, lo as int);
    }
    slice_to_vec(v, lo, n)
}

/// Strips whitespace and quotes from an os-release value.
pub fn unquote(value: &str) -> (r: String)
    ensures
        r@ == unquoted(value@),
{
    let v = to_chars(value);
    let t = trim_chars(&v);
    let a = trim_char_vec(&t, '"');
    let b = trim_char_vec(&a, '\'');
    from_chars(&b)
}

/// Index of the last `-` in `s`.
pub open spec fn last_dash(s: Seq<char>, i: int) -> Option<int>
    decreases i,
{
    if i <= 0 || i > s.len() {
        None
    } else if s[i - 1] == '-' {
        Some(i - 1)
    } else {
        last_dash(s, i - 1)
    }
}

/// Whether every character of `s` is an ASCII digit.
pub open spec fn all_digits(s: Seq<char>) -> bool {
    forall|i: int| 0 <= i < s.len() ==> '0' <= #[trigger] s[i] && s[i] <= '9'
}

/// An Arch package version without its numeric `-pkgrel` suffix.
pub open spec fn without_pkgrel(s: Seq<char>) -> Seq<char> {
    match last_dash(s, s.len() as int) {
        Some(k) => if all_digits(s.subrange(k + 1, s.len() as int)) {
            s.subrange(0, k)
        } else {
            s
        },
        None => s,
    }
}

/// Removes an Arch `-pkgrel` suffix (`0.1.1-1` → `0.1.1`).
pub fn strip_pkgrel(version: &str) -> (r: String)
    ensures
        r@ == without_pkgrel(version@),
{
    let v = to_chars(version);
    let n = v.len();
    let mut i = n;
    while i > 0 && v[i - 1] != '-'
        invariant
            i <= n == v@.len(),
            last_dash(v@, n as int) == last_dash(v@, i as int),
        decreases i,
    {
        i -= 1;
    }
    if i == 0 {
        return from_chars(&v);
    }
    let k = i - 1;
    let mut j = i;
    let mut digits = true;
    while j < n
        invariant
            i <= j <= n == v@.len(),
            digits == forall|m: int| i <= m < j ==> '0' <= #[trigger] v@[m] && v@[m] <= '9',
        decreases n - j,
    {
        if !('0' <= v[j] && v[j] <= '9') {
            digits = false;
        }
        j += 1;
    }
    proof {
        let t = v@.subrange(i as int, n as int);
        if digits {
            assert forall|m: int| 0 <= m < t.len() implies '0' <= #[trigger] t[m] && t[m] <= '9' by {
                assert(t[m] == v@[m + i]);
            }
        } else {
            let m = choose|m: int| i <= m < n && !('0' <= #[trigger] v@[m] && v@[m] <= '9');
            assert(t[m - i] == v@[m]);
        }
    }
    if digits {
        from_chars(&slice_to_vec(&v, 0, k))
    } else {
        from_chars(&v)
    }
}

/// The value of a string of ASCII digits.
pub open spec fn digits_value(s: Seq<char>) -> int
    decreases s.len(),
{
    if s.len() == 0 {
        0
    } else {
        digits_value(s.drop_last()) * 10 + (s.last() as int - '0' as int)
    }
}

/// `str::parse::<u64>`: an optional `+`, then one or more ASCII digits whose
/// value fits in 64 bits.
pub open spec fn parse_u64(s: Seq<char>) -> Option<u64> {
    let t = if s.len() > 0 && s[0] == '+' {
        s.drop_first()
    } else {
        s
    };
    if t.len() == 0 || !all_digits(t) || digits_value(t) > u64::MAX {
        None
    } else {
        Some(digits_value(t) as u64)
    }
}

pub proof fn lemma_digits_value_nonneg(s: Seq<char>)
    requires
        all_digits(s),
    ensures
        digits_value(s) >= 0,
    decreases s.len(),
{
    if s.len() > 0 {
        lemma_digits_value_nonneg(s.drop_last());
    }
}

/// Parses a decimal `u64` like `str::parse::<u64>`.
pub fn parse_u64_exec(s: &[char]) -> (r: Option<u64>)
    ensures
        r == parse_u64(s@),
{
    let start: usize = if s.len() > 0 && s[0] == '+' {
        1
    } else {
        0
    };
    let ghost t = if s@.len() > 0 && s@[0] == '+' {
        s@.drop_first()
    } else {
        s@
    };
    assert(t == s@.subrange(start as int, s@.len() as int));
    if start == s.len() {
        return None;
    }
    let mut value: u64 = 0;
    let mut i = start;
    let mut overflow = false;
    while i < s.len()
        invariant
            start <= i <= s@.len(),
            start < s@.len(),
            t == s@.subrange(start as int, s@.len() as int),
            t == (if s@.len() > 0 && s@[0] == '+' {
                s@.drop_first()
            } else {
                s@
            }),
            all_digits(s@.subrange(start as int, i as int)),
            !overflow ==> value as int == digits_value(s@.subrange(start as int, i as int)),
            overflow ==> digits_value(s@.subrange(start as int, i as int)) > u64::MAX,
        decreases s@.len() - i,
    {
        let c = s[i];
        let ghost pre = s@.subrange(start as int, i + 1);
        assert(pre.drop_last() == s@.subrange(start as int, i as int));
        if !('0' <= c && c <= '9') {
            assert(!all_digits(t)) by {
                assert(t[i - start] == c);
            }
            return None;
        }
        let d = (c as u32 - '0' as u32) as u64;
        assert(all_digits(pre)) by {
            assert forall|m: int| 0 <= m < pre.len() implies '0' <= #[trigger] pre[m] && pre[m] <= '9' by {
                if m < pre.len() - 1 {
                    assert(pre[m] == s@.subrange(start as int, i as int)[m]);
                }
            }
        }
        proof {
            lemma_digits_value_nonneg(s@.subrange(start as int, i as int));
        }
        if !overflow {
            if value > (u64::MAX - d) / 10 {
                overflow = true;
                assert(digits_value(pre) > u64::MAX) by (nonlinear_arith)
                    requires
                        digits_value(pre) == value * 10 + d,
                        value > (u64::MAX - d) / 10,
                        0 <= d <= 9,
                ;
            } else {
                assert(value * 10 + d <= u64::MAX) by (nonlinear_arith)
                    requires
                        value <= (u64::MAX - d) / 10,
                        0 <= d <= 9,
                ;
                value = value * 10 + d;
            }
        } else {
            assert(digits_value(pre) > u64::MAX) by (nonlinear_arith)
                requires
                    digits_value(pre) == digits_value(s@.subrange(start as int, i as int)) * 10 + d,
                    digits_value(s@.subrange(start as int, i as int)) > u64::MAX,
                    0 <= d <= 9,
            ;
        }
        i += 1;
    }
    if overflow {
        None
    } else {
        Some(value)
    }
}

/// A `major.minor.patch` version: leading whitespace and `v` dropped, the
/// patch defaulting to `0` and cut at its first non-digit.
pub open spec fn semver(raw: Seq<char>) -> Option<(u64, u64, u64)> {
    let s = trim_start_char(trim(raw), 'v');
    let parts = dot_parts(s);
    if parts.len() < 2 {
        None
    } else {
        let patch_raw = if parts.len() >= 3 {
            parts[2]
        } else {
            "0"@
        };
        let patch_digits = patch_raw.subrange(0, digit_prefix_end(patch_raw, 0));
        match (parse_u64(parts[0]), parse_u64(parts[1]), parse_u64(patch_digits)) {
            (Some(a), Some(b), Some(c)) => Some((a, b, c)),
            _ => None,
        }
    }
}

/// End of the run of ASCII digits of `s` that starts at `i`.
pub open spec fn digit_prefix_end(s: Seq<char>, i: int) -> int
    decreases s.len() - i,
{
    if 0 <= i < s.len() && '0' <= s[i] && s[i] <= '9' {
        digit_prefix_end(s, i + 1)
    } else {
        i
    }
}

/// The parts of `s` between dots (`str::split('.')`, empty parts kept).
pub open spec fn dot_parts(s: Seq<char>) -> Seq<Seq<char>>
    decreases s.len(),
{
    if s.len() == 0 {
        seq![seq![]]
    } else {
        let p = dot_parts(s.drop_last());
        if s.last() == '.' {
            p.push(seq![])
        } else {
            p.update(p.len() - 1, p.last().push(s.last()))
        }
    }
}

pub proof fn lemma_dot_parts_nonempty(s: Seq<char>)
    ensures
        dot_parts(s).len() >= 1,
    decreases s.len(),
{
    if s.len() > 0 {
        lemma_dot_parts_nonempty(s.drop_last());
    }
}

/// Executable [`dot_parts`].
fn split_dots(v: &[char]) -> (r: Vec<Vec<char>>)
    ensures
        r@.len() == dot_parts(v@).len(),
        forall|k: int| 0 <= k < r@.len() ==> #[trigger] r@[k]@ == dot_parts(v@)[k],
{
    let mut out: Vec<Vec<char>> = Vec::new();
    out.push(Vec::new());
    let mut i: usize = 0;
    assert(v@.subrange(0, 0) == Seq::<char>::empty());
    while i < v.len()
        invariant
            i <= v@.len(),
            out@.len() >= 1,
            out@.len() == dot_parts(v@.subrange(0, i as int)).len(),
            forall|k: int|
                0 <= k < out@.len() ==> #[trigger] out@[k]@ == dot_parts(v@.subrange(0, i as int))[k],
        decreases v@.len() - i,
    {
        let c = v[i];
        let ghost pre = v@.subrange(0, i + 1);
        let ghost old_parts = dot_parts(v@.subrange(0, i as int));
        assert(pre.drop_last() == v@.subrange(0, i as int));
        assert(pre.last() == c);
        if c == '.' {
            out.push(Vec::new());
        } else {
            let ghost before = out@;
            let mut last = out.pop().unwrap();
            last.push(c);
            out.push(last);
            proof {
                let parts = dot_parts(pre);
                assert(parts == old_parts.update(old_parts.len() - 1, old_parts.last().push(c)));
                assert forall|k: int| 0 <= k < out@.len() implies #[trigger] out@[k]@ == parts[k] by {
                    if k < out@.len() - 1 {
                        assert(out@[k] == before[k]);
                    }
                }
            }
        }
        i += 1;
    }
    assert(v@.subrange(0, v@.len() as int) == v@);
    out
}

/// Parses `major.minor[.patch]` (leading `v` allowed).
pub fn parse_semver(raw: &str) -> (r: Option<(u64, u64, u64)>)
    ensures
        r == semver(raw@),
{
    let v = to_chars(raw);
    let t = trim_chars(&v);
    let s = trim_start_char_vec(&t, 'v');
    let parts = split_dots(&s);
    if parts.len() < 2 {
        return None;
    }
    let major = parse_u64_exec(&parts[0]);
    let minor = parse_u64_exec(&parts[1]);
    let mut patch_raw: Vec<char> = Vec::new();
    if parts.len() >= 3 {
        patch_raw = slice_to_vec(&parts[2], 0, parts[2].len());
    } else {
        patch_raw.push('0');
    }
    let mut k: usize = 0;
    while k < patch_raw.len() && '0' <= patch_raw[k] && patch_raw[k] <= '9'
        invariant
            k <= patch_raw@.len(),
            digit_prefix_end(patch_raw@, 0) == digit_prefix_end(patch_raw@, k as int),
        decreases patch_raw@.len() - k,
    {
        k += 1;
    }
    proof {
        reveal_strlit("0");
        if parts@.len() < 3 {
            assert(patch_raw@ == "0"@);
        } else {
            assert(patch_raw@ == dot_parts(s@)[2]);
        }
        assert(parts@[0]@ == dot_parts(s@)[0]);
        assert(parts@[1]@ == dot_parts(s@)[1]);
    }
    let patch = parse_u64_exec(&slice_to_vec(&patch_raw, 0, k));
    match (major, minor, patch) {
        (Some(a), Some(b), Some(c)) => Some((a, b, c)),
        _ => None,
    }
}

/// Lexicographic order on version triples.
pub open spec fn triple_gt(r: (u64, u64, u64), c: (u64, u64, u64)) -> bool {
    r.0 > c.0 || (r.0 == c.0 && (r.1 > c.1 || (r.1 == c.1 && r.2 > c.2)))
}

/// Whether `remote` is newer than `current`: by version triple when both
/// parse, else by string order of the texts without leading `v`s.
pub open spec fn newer_version(current: Seq<char>, remote: Seq<char>) -> bool {
    match (semver(current), semver(remote)) {
        (Some(c), Some(r)) => triple_gt(r, c),
        _ => {
            let c = trim_start_char(current, 'v');
            let r = trim_start_char(remote, 'v');
            r != c && lex_lt(c, r)
        },
    }
}

/// True when `remote` is a newer SemVer than `current` (ignores leading `v`).
pub fn is_newer_version(current: &str, remote: &str) -> (r: bool)
    ensures
        r == newer_version(current@, remote@),
        semver(current@) is Some && semver(remote@) is Some ==> ({
            let c = semver(current@)->Some_0;
            let v = semver(remote@)->Some_0;
            &&& v.0 > c.0 ==> r
            &&& v.0 < c.0 ==> !r
            &&& v.0 == c.0 && v.1 > c.1 ==> r
            &&& v.0 == c.0 && v.1 < c.1 ==> !r
            &&& v.0 == c.0 && v.1 == c.1 ==> (r <==> v.2 > c.2)
        }),
{
    match (parse_semver(current), parse_semver(remote)) {
        (Some(c), Some(r)) => r.0 > c.0 || (r.0 == c.0 && (r.1 > c.1 || (r.1 == c.1 && r.2 > c.2))),
        _ => {
            let cv = to_chars(current);
            let rv = to_chars(remote);
            let c = trim_start_char_vec(&cv, 'v');
            let r = trim_start_char_vec(&rv, 'v');
            !crate::order::chars_eq(&r, &c) && lex_lt_exec(&c, &r)
        },
    }
}

/// `version` without leading `v`s.
pub open spec fn bare_version(version: Seq<char>) -> Seq<char> {
    trim_start_char(version, 'v')
}

/// The release download URL prefix for a bare version.
pub open spec fn release_download_prefix(v: Seq<char>) -> Seq<char> {
    "https://github.com/JoelYoung01/Jade/releases/download/v"@ + v + "/Jade_"@ + v
}

fn asset_url(version: &str, suffix: &str) -> (r: String)
    ensures
        r@ == release_download_prefix(bare_version(version@)) + suffix@,
{
    let v = trim_start_char_vec(&to_chars(version), 'v');
    let mut out = to_chars("https://github.com/JoelYoung01/Jade/releases/download/v");
    push_all(&mut out, &v);
    push_all(&mut out, &to_chars("/Jade_"));
    push_all(&mut out, &v);
    push_all(&mut out, &to_chars(suffix));
    from_chars(&out)
}

/// Best-effort AppImage asset URL for a release version.
pub fn appimage_download_url(version: &str) -> (r: String)
    ensures
        r@ == release_download_prefix(bare_version(version@)) + "_amd64.AppImage"@,
{
    asset_url(version, "_amd64.AppImage")
}

/// Debian package asset URL for a release version.
pub fn deb_download_url(version: &str) -> (r: String)
    ensures
        r@ == release_download_prefix(bare_version(version@)) + "_amd64.deb"@,
{
    asset_url(version, "_amd64.deb")
}

/// Windows NSIS installer URL for a release version.
pub fn windows_setup_download_url(version: &str) -> (r: String)
    ensures
        r@ == release_download_prefix(bare_version(version@)) + "_x64-setup.exe"@,
{
    asset_url(version, "_x64-setup.exe")
}

/// The releases page, where the latest AppImage is offered.
pub fn latest_appimage_download_url() -> (r: String)
    ensures
        r@ == GITHUB_RELEASES_URL@,
{
    from_chars(&to_chars(GITHUB_RELEASES_URL))
}


/// The lines of `s` split at `sep` (`str::split`, empty parts kept).
pub open spec fn split_at_char(s: Seq<char>, sep: char) -> Seq<Seq<char>>
    decreases s.len(),
{
    if s.len() == 0 {
        seq![seq![]]
    } else {
        let p = split_at_char(s.drop_last(), sep);
        if s.last() == sep {
            p.push(seq![])
        } else {
            p.update(p.len() - 1, p.last().push(s.last()))
        }
    }
}

pub proof fn lemma_split_at_char_nonempty(s: Seq<char>, sep: char)
    ensures
        split_at_char(s, sep).len() >= 1,
    decreases s.len(),
{
    if s.len() > 0 {
        lemma_split_at_char_nonempty(s.drop_last(), sep);
    }
}

/// Executable [`split_at_char`].
pub fn split_char(v: &[char], sep: char) -> (r: Vec<Vec<char>>)
    ensures
        r@.len() == split_at_char(v@, sep).len(),
        forall|k: int| 0 <= k < r@.len() ==> #[trigger] r@[k]@ == split_at_char(v@, sep)[k],
{
    let mut out: Vec<Vec<char>> = Vec::new();
    out.push(Vec::new());
    let mut i: usize = 0;
    assert(v@.subrange(0, 0) == Seq::<char>::empty());
    while i < v.len()
        invariant
            i <= v@.len(),
            out@.len() >= 1,
            out@.len() == split_at_char(v@.subrange(0, i as int), sep).len(),
            forall|k: int|
                0 <= k < out@.len() ==> #[trigger] out@[k]@ == split_at_char(
                    v@.subrange(0, i as int),
                    sep,
                )[k],
        decreases v@.len() - i,
    {
        let c = v[i];
        let ghost pre = v@.subrange(0, i + 1);
        let ghost old_parts = split_at_char(v@.subrange(0, i as int), sep);
        assert(pre.drop_last() == v@.subrange(0, i as int));
        assert(pre.last() == c);
        if c == sep {
            out.push(Vec::new());
        } else {
            let ghost before = out@;
            let mut last = out.pop().unwrap();
            last.push(c);
            out.push(last);
            proof {
                let parts = split_at_char(pre, sep);
                assert(parts == old_parts.update(old_parts.len() - 1, old_parts.last().push(c)));
                assert forall|k: int| 0 <= k < out@.len() implies #[trigger] out@[k]@ == parts[k] by {
                    if k < out@.len() - 1 {
                        assert(out@[k] == before[k]);
                    }
                }
            }
        }
        i += 1;
    }
    assert(v@.subrange(0, v@.len() as int) == v@);
    out
}

/// The unquoted value of the last line of `lines` (from index `i` on, with
/// `acc` as the value so far) that starts with `key`.
pub open spec fn last_value(lines: Seq<Seq<char>>, key: Seq<char>) -> Option<Seq<char>>
    decreases lines.len(),
{
    if lines.len() == 0 {
        None
    } else if crate::text::starts_with(lines.last(), key) {
        Some(unquoted(lines.last().subrange(key.len() as int, lines.last().len() as int)))
    } else {
        last_value(lines.drop_last(), key)
    }
}

/// `ID` and Arch-family flag from an os-release file: `ID` is the last
/// `ID=` value; Arch-based when `ID` or any word of `ID_LIKE` is Arch-family.
pub open spec fn os_release_info(raw: Option<Seq<char>>) -> (Option<Seq<char>>, bool) {
    match raw {
        None => (None, false),
        Some(text) => {
            let lines = split_at_char(text, '\n');
            let id = last_value(lines, "ID="@);
            let like = last_value(lines, "ID_LIKE="@);
            let arch = (id matches Some(i) && arch_family(i)) || (like matches Some(l) && exists|
                k: int,
            |
                0 <= k < segments(l, true).len() && arch_family(#[trigger] segments(l, true)[k]));
            (id, arch)
        },
    }
}

/// Reads `ID` and the Arch-family flag from the text of `/etc/os-release`
/// (`None` when the file could not be read).
pub fn read_os_release(raw: Option<&str>) -> (r: (Option<String>, bool))
    ensures
        r.1 == os_release_info(opt_view(raw)).1,
        match r.0 {
            Some(id) => os_release_info(opt_view(raw)).0 == Some(id@),
            None => os_release_info(opt_view(raw)).0 is None,
        },
{
    let text = match raw {
        None => {
            return (None, false);
        },
        Some(t) => t,
    };
    let v = to_chars(text);
    let lines = split_char(&v, '\n');
    let ghost ls = split_at_char(v@, '\n');
    let id = last_value_exec(&lines, "ID=", Ghost(ls));
    let like = last_value_exec(&lines, "ID_LIKE=", Ghost(ls));
    let id_arch = match &id {
        Some(i) => is_arch_family_id(i.as_str()),
        None => false,
    };
    let like_arch = match &like {
        Some(l) => {
            let lv = to_chars(l.as_str());
            let words = split_segments(&lv, true);
            let ghost ws = segments(l@, true);
            let mut found = false;
            let mut k: usize = 0;
            while k < words.len()
                invariant
                    k <= words@.len() == ws.len(),
                    ws == segments(l@, true),
                    forall|m: int| 0 <= m < words@.len() ==> #[trigger] words@[m]@ == ws[m],
                    found == exists|m: int| 0 <= m < k && arch_family(#[trigger] ws[m]),
                decreases words@.len() - k,
            {
                assert(ws[k as int] == words@[k as int]@);
                let w = from_chars(&words[k]);
                if is_arch_family_id(w.as_str()) {
                    found = true;
                }
                k += 1;
            }
            found
        },
        None => false,
    };
    proof {
        let os = os_release_info(opt_view(raw));
        let sid = last_value(ls, "ID="@);
        let slike = last_value(ls, "ID_LIKE="@);
        assert(id_arch == (sid matches Some(i) && arch_family(i)));
        assert(like_arch == (slike matches Some(l) && exists|k: int|
            0 <= k < segments(l, true).len() && arch_family(#[trigger] segments(l, true)[k])));
    }
    (id, id_arch || like_arch)
}

/// The view of an optional string.
pub open spec fn opt_view(s: Option<&str>) -> Option<Seq<char>> {
    match s {
        Some(t) => Some(t@),
        None => None,
    }
}

/// Executable [`last_value`].
fn last_value_exec(lines: &Vec<Vec<char>>, key: &str, Ghost(ls): Ghost<Seq<Seq<char>>>) -> (r: Option<String>)
    requires
        lines@.len() == ls.len(),
        forall|k: int| 0 <= k < lines@.len() ==> #[trigger] lines@[k]@ == ls[k],
    ensures
        match r {
            Some(v) => last_value(ls, key@) == Some(v@),
            None => last_value(ls, key@) is None,
        },
{
    let kv = to_chars(key);
    let mut i = lines.len();
    assert(ls.subrange(0, ls.len() as int) == ls);
    while i > 0
        invariant
            i <= lines@.len() == ls.len(),
            forall|k: int| 0 <= k < lines@.len() ==> #[trigger] lines@[k]@ == ls[k],
            kv@ == key@,
            last_value(ls, key@) == last_value(ls.subrange(0, i as int), key@),
        decreases i,
    {
        let line = &lines[i - 1];
        let ghost pre = ls.subrange(0, i as int);
        assert(pre.last() == line@);
        assert(pre.drop_last() == ls.subrange(0, i - 1));
        if crate::text::starts_with_chars(line, &kv) {
            let rest = slice_to_vec(line, kv.len(), line.len());
            let s = from_chars(&rest);
            return Some(unquote(s.as_str()));
        }
        i -= 1;
    }
    None
}

/// Package owner from `pacman -Qoq` output: the trimmed text when the
/// command succeeded and printed something.
pub open spec fn pacman_owner_of(success: bool, stdout: Seq<char>) -> Option<Seq<char>> {
    if !success || trim(stdout).len() == 0 {
        None
    } else {
        Some(trim(stdout))
    }
}

/// Interprets `pacman -Qoq <exe>` output.
pub fn pacman_owner_from_output(success: bool, stdout: &str) -> (r: Option<String>)
    ensures
        match r {
            Some(p) => pacman_owner_of(success, stdout@) == Some(p@),
            None => pacman_owner_of(success, stdout@) is None,
        },
{
    if !success {
        return None;
    }
    let t = crate::text::trim_str(stdout);
    if t.as_str().unicode_len() == 0 {
        None
    } else {
        Some(t)
    }
}

/// Package owner from `dpkg-query -S` output: the trimmed text before the
/// first `:` when the command succeeded and it is not empty.
pub open spec fn dpkg_owner_of(success: bool, stdout: Seq<char>) -> Option<Seq<char>> {
    let head = split_at_char(stdout, ':')[0];
    if !success || trim(head).len() == 0 {
        None
    } else {
        Some(trim(head))
    }
}

/// Interprets `dpkg-query -S <exe>` output.
pub fn dpkg_owner_from_output(success: bool, stdout: &str) -> (r: Option<String>)
    ensures
        match r {
            Some(p) => dpkg_owner_of(success, stdout@) == Some(p@),
            None => dpkg_owner_of(success, stdout@) is None,
        },
{
    let v = to_chars(stdout);
    let parts = split_char(&v, ':');
    proof {
        lemma_split_at_char_nonempty(v@, ':');
    }
    if !success {
        return None;
    }
    let head = trim_chars(&parts[0]);
    if head.len() == 0 {
        None
    } else {
        Some(from_chars(&head))
    }
}

/// Install kind and package from the package managers' answers: pacman
/// first (the AUR package names mean an AUR install), then dpkg.
pub open spec fn package_kind(pacman: Option<Seq<char>>, dpkg: Option<Seq<char>>) -> (InstallKind, Option<Seq<char>>) {
    match pacman {
        Some(pkg) => (if pkg == "jade-desktop-bin"@ || pkg == "jade-desktop"@ {
            InstallKind::Aur
        } else {
            InstallKind::Unknown
        }, Some(pkg)),
        None => match dpkg {
            Some(pkg) => (InstallKind::Deb, Some(pkg)),
            None => (InstallKind::Unknown, None),
        },
    }
}

/// The view of an optional owned string.
pub open spec fn opt_string_view(s: Option<String>) -> Option<Seq<char>> {
    match s {
        Some(t) => Some(t@),
        None => None,
    }
}

/// Classifies a binary by the package that owns it.
pub fn classify_package_owned(pacman: Option<String>, dpkg: Option<String>) -> (r: (
    InstallKind,
    Option<String>,
))
    ensures
        r.0 == package_kind(opt_string_view(pacman), opt_string_view(dpkg)).0,
        opt_string_view(r.1) == package_kind(opt_string_view(pacman), opt_string_view(dpkg)).1,
{
    match pacman {
        Some(pkg) => {
            let kind = if str_eq(pkg.as_str(), AUR_PACKAGE_NAME) || str_eq(
                pkg.as_str(),
                "jade-desktop",
            ) {
                InstallKind::Aur
            } else {
                InstallKind::Unknown
            };
            (kind, Some(pkg))
        },
        None => match dpkg {
            Some(pkg) => (InstallKind::Deb, Some(pkg)),
            None => (InstallKind::Unknown, None),
        },
    }
}

/// What the host reports about the running binary, gathered by the caller
/// (environment, `/etc/os-release`, package managers, `PATH`).
pub struct InstallProbe {
    /// Running on Windows.
    pub windows: bool,
    /// Text of `/etc/os-release`, when readable.
    pub os_release: Option<String>,
    /// Value of `APPIMAGE`, when set.
    pub app_image_env: Option<String>,
    /// The executable's path is known.
    pub exe_known: bool,
    /// Owner reported by pacman (see [`pacman_owner_from_output`]).
    pub pacman_owner: Option<String>,
    /// Owner reported by dpkg (see [`dpkg_owner_from_output`]).
    pub dpkg_owner: Option<String>,
    pub konsole_available: bool,
    pub yay_available: bool,
}

/// Detects the install channel from what the host reported: Windows, an
/// AppImage (when `APPIMAGE` is set), else by the owning package.
pub fn detect_install_context_for(probe: InstallProbe) -> (r: InstallContext)
    ensures
        probe.windows ==> r.kind == InstallKind::Windows && r.platform@ == "windows"@
            && r.distro_id is None && !r.arch_based && r.package_name is None
            && !r.konsole_available && !r.yay_available && r.app_image_env is None,
        !probe.windows ==> {
            let os = os_release_info(opt_string_view(probe.os_release));
            &&& r.platform@ == "linux"@
            &&& opt_string_view(r.distro_id) == os.0
            &&& r.arch_based == os.1
            &&& r.konsole_available == probe.konsole_available
            &&& r.yay_available == probe.yay_available
            &&& r.app_image_env == probe.app_image_env
            &&& if probe.app_image_env is Some {
                r.kind == InstallKind::AppImage && r.package_name is None
            } else if probe.exe_known {
                let pk = package_kind(
                    opt_string_view(probe.pacman_owner),
                    opt_string_view(probe.dpkg_owner),
                );
                r.kind == pk.0 && opt_string_view(r.package_name) == pk.1
            } else {
                r.kind == InstallKind::Unknown && r.package_name is None
            }
        },
        r.releases_url@ == GITHUB_RELEASES_URL@,
{
    let releases_url = from_chars(&to_chars(GITHUB_RELEASES_URL));
    if probe.windows {
        return InstallContext {
            kind: InstallKind::Windows,
            platform: from_chars(&to_chars("windows")),
            distro_id: None,
            arch_based: false,
            package_name: None,
            konsole_available: false,
            yay_available: false,
            app_image_env: None,
            releases_url,
        };
    }
    let (distro_id, arch_based) = match &probe.os_release {
        Some(t) => read_os_release(Some(t.as_str())),
        None => read_os_release(None),
    };
    let (kind, package_name) = if probe.app_image_env.is_some() {
        (InstallKind::AppImage, None)
    } else if probe.exe_known {
        classify_package_owned(probe.pacman_owner, probe.dpkg_owner)
    } else {
        (InstallKind::Unknown, None)
    };
    InstallContext {
        kind,
        platform: from_chars(&to_chars("linux")),
        distro_id,
        arch_based,
        package_name,
        konsole_available: probe.konsole_available,
        yay_available: probe.yay_available,
        app_image_env: probe.app_image_env,
        releases_url,
    }
}

/// AUR package info from the RPC answer: the upstream version is the
/// version without its pkgrel.
pub fn aur_package_info(name: String, version: String) -> (r: AurPackageInfo)
    ensures
        r.name@ == name@,
        r.version@ == version@,
        r.upstream_version@ == without_pkgrel(version@),
{
    let upstream_version = strip_pkgrel(version.as_str());
    AurPackageInfo { name, version, upstream_version }
}

/// Where an update would come from: the channel's latest version, its name,
/// and the asset to download.
#[derive(Clone, Debug)]
pub struct ChannelResolution {
    pub latest: Option<String>,
    pub channel: String,
    pub download_url: Option<String>,
}

/// The channel name and asset URL for an install kind and a GitHub version.
pub open spec fn github_channel(kind: InstallKind, v: Seq<char>) -> (Seq<char>, Seq<char>) {
    match kind {
        InstallKind::Aur => ("github"@, release_download_prefix(bare_version(v)) + "_amd64.deb"@),
        InstallKind::Deb => ("deb"@, release_download_prefix(bare_version(v)) + "_amd64.deb"@),
        InstallKind::AppImage => (
            "appImage"@,
            release_download_prefix(bare_version(v)) + "_amd64.AppImage"@,
        ),
        InstallKind::Windows => (
            "windows"@,
            release_download_prefix(bare_version(v)) + "_x64-setup.exe"@,
        ),
        InstallKind::Unknown => ("unknown"@, release_download_prefix(bare_version(v)) + "_amd64.deb"@),
    }
}

/// Resolves the update channel of an install from what was fetched: the AUR
/// package (AUR installs; it wins when published) and the latest GitHub
/// release (when fetched).
pub fn resolve_channel(
    kind: InstallKind,
    aur: Option<AurPackageInfo>,
    latest: Option<LatestReleaseInfo>,
) -> (r: ChannelResolution)
    ensures
        channel_ok(kind, aur, latest, r),
{
    resolve_channel_of(kind, aur, latest)
}

/// The channel an install resolves to from what was fetched (see
/// [`resolve_channel`]).
pub open spec fn channel_ok(
    kind: InstallKind,
    aur: Option<AurPackageInfo>,
    latest: Option<LatestReleaseInfo>,
    r: ChannelResolution,
) -> bool {
    &&& kind == InstallKind::Aur && aur is Some ==> {
            &&& r.latest matches Some(l) && l@ == aur.unwrap().upstream_version@
            &&& r.channel@ == "aur:jade-desktop-bin"@
            &&& r.download_url is None
        }
    &&& !(kind == InstallKind::Aur && aur is Some) ==> {
            &&& r.channel@ == (if kind == InstallKind::Unknown {
                "unknown"@
            } else {
                github_channel(kind, seq![]).0
            })
            &&& match latest {
                Some(gh) => (r.latest matches Some(l) && l@ == gh.version@) && (
                r.download_url matches Some(u) && u@ == github_channel(kind, gh.version@).1),
                None => r.latest is None && r.download_url is None,
            }
        }
}

/// Whether the latest GitHub release is fetched for an install, and whether
/// failing to fetch it fails the update.
#[derive(Clone, Copy, Debug, PartialEq, Eq, Structural)]
pub enum GithubFetch {
    /// Not fetched: the AUR package answers.
    Skip,
    /// Fetched; a failure is ignored (unknown installs).
    Optional,
    /// Fetched; a failure fails the update.
    Required,
}

/// The GitHub fetch an install needs once the AUR lookup (AUR installs
/// only) found a package or not.
pub open spec fn github_fetch_of(kind: InstallKind, aur_found: bool) -> GithubFetch {
    if kind == InstallKind::Aur && aur_found {
        GithubFetch::Skip
    } else if kind == InstallKind::Unknown {
        GithubFetch::Optional
    } else {
        GithubFetch::Required
    }
}

/// The GitHub fetch an install needs (see [`github_fetch_of`]).
pub fn github_fetch(kind: InstallKind, aur_found: bool) -> (r: GithubFetch)
    ensures
        r == github_fetch_of(kind, aur_found),
{
    match kind {
        InstallKind::Aur => if aur_found {
            GithubFetch::Skip
        } else {
            GithubFetch::Required
        },
        InstallKind::Unknown => GithubFetch::Optional,
        _ => GithubFetch::Required,
    }
}

/// The channel from what the fetches gave: a failed AUR lookup fails the
/// update with its message; a failed GitHub fetch does too when it was
/// required, and counts as nothing fetched when optional; otherwise the
/// channel resolves as [`channel_ok`] says. `aur` is `Ok(None)` for
/// installs that do not look the AUR up; `latest` is `None` when the
/// GitHub release was not fetched.
pub fn channel_from_fetches(
    kind: InstallKind,
    aur: Result<Option<AurPackageInfo>, String>,
    latest: Option<Result<LatestReleaseInfo, String>>,
) -> (r: Result<ChannelResolution, String>)
    ensures
        match aur {
            Err(m) => r matches Err(x) && x@ == m@,
            Ok(found) => if github_fetch_of(kind, found is Some) == GithubFetch::Required && (latest matches Some(
                Err(_))) {
                r matches Err(x) && x@ == latest->Some_0->Err_0@
            } else {
                r matches Ok(c) && channel_ok(kind, found, match latest {
                    Some(Ok(l)) => Some(l),
                    _ => None,
                }, c)
            },
        },
{
    let found = match aur {
        Err(m) => {
            return Err(m);
        },
        Ok(f) => f,
    };
    let rule = github_fetch(kind, found.is_some());
    let gh = match latest {
        Some(Ok(l)) => Some(l),
        Some(Err(m)) => {
            if rule == GithubFetch::Required {
                return Err(m);
            }
            None
        },
        None => None,
    };
    Ok(resolve_channel(kind, found, gh))
}

/// The channel from what was fetched, as [`channel_ok`] says.
fn resolve_channel_of(
    kind: InstallKind,
    aur: Option<AurPackageInfo>,
    latest: Option<LatestReleaseInfo>,
) -> (r: ChannelResolution)
    ensures
        kind == InstallKind::Aur && aur is Some ==> {
            &&& r.latest matches Some(l) && l@ == aur.unwrap().upstream_version@
            &&& r.channel@ == "aur:jade-desktop-bin"@
            &&& r.download_url is None
        },
        !(kind == InstallKind::Aur && aur is Some) ==> {
            &&& r.channel@ == (if kind == InstallKind::Unknown {
                "unknown"@
            } else {
                github_channel(kind, seq![]).0
            })
            &&& match latest {
                Some(gh) => (r.latest matches Some(l) && l@ == gh.version@) && (
                r.download_url matches Some(u) && u@ == github_channel(kind, gh.version@).1),
                None => r.latest is None && r.download_url is None,
            }
        },
{
    if let InstallKind::Aur = kind {
        if let Some(info) = aur {
            return ChannelResolution {
                latest: Some(info.upstream_version),
                channel: from_chars(&to_chars("aur:jade-desktop-bin")),
                download_url: None,
            };
        }
    }
    let channel = match kind {
        InstallKind::Aur => "github",
        InstallKind::Deb => "deb",
        InstallKind::AppImage => "appImage",
        InstallKind::Windows => "windows",
        InstallKind::Unknown => "unknown",
    };
    match latest {
        Some(gh) => {
            let url = match kind {
                InstallKind::AppImage => appimage_download_url(gh.version.as_str()),
                InstallKind::Windows => windows_setup_download_url(gh.version.as_str()),
                _ => deb_download_url(gh.version.as_str()),
            };
            ChannelResolution {
                latest: Some(gh.version),
                channel: from_chars(&to_chars(channel)),
                download_url: Some(url),
            }
        },
        None => ChannelResolution {
            latest: None,
            channel: from_chars(&to_chars(channel)),
            download_url: None,
        },
    }
}

/// No version is newer than itself.
pub proof fn lemma_newer_version_irreflexive(v: Seq<char>)
    ensures
        !newer_version(v, v),
{
    if semver(v) is None {
        crate::order::lemma_lex_irreflexive(trim_start_char(v, 'v'));
    }
}

/// Between two versions that both parse, newer is the order of their
/// (major, minor, patch) numbers compared left to right: a greater major
/// version is newer whatever the minor and patch numbers are, a smaller one
/// never is, and each later number decides only when all before it agree.
pub proof fn lemma_newer_version_by_components(current: Seq<char>, remote: Seq<char>)
    requires
        semver(current) is Some,
        semver(remote) is Some,
    ensures
        ({
            let c = semver(current)->Some_0;
            let v = semver(remote)->Some_0;
            &&& v.0 > c.0 ==> newer_version(current, remote)
            &&& v.0 < c.0 ==> !newer_version(current, remote)
            &&& v.0 == c.0 && v.1 > c.1 ==> newer_version(current, remote)
            &&& v.0 == c.0 && v.1 < c.1 ==> !newer_version(current, remote)
            &&& v.0 == c.0 && v.1 == c.1 ==> (newer_version(current, remote) <==> v.2 > c.2)
        }),
{
}

/// Of two versions that both parse, the newer relation is transitive.
pub proof fn lemma_newer_version_transitive(a: Seq<char>, b: Seq<char>, c: Seq<char>)
    requires
        semver(a) is Some,
        semver(b) is Some,
        semver(c) is Some,
        newer_version(a, b),
        newer_version(b, c),
    ensures
        newer_version(a, c),
{
}

/// Of two versions, at most one is newer than the other.
pub proof fn lemma_newer_version_asymmetric(a: Seq<char>, b: Seq<char>)
    ensures
        newer_version(a, b) ==> !newer_version(b, a),
{
    if !(semver(a) is Some && semver(b) is Some) && lex_lt(trim_start_char(a, 'v'), trim_start_char(b, 'v')) {
        crate::order::lemma_lex_asymmetric(trim_start_char(a, 'v'), trim_start_char(b, 'v'));
    }
}

} // verus!
