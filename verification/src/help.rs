//! Command-line help routing: finding a rich-help topic path in the raw
//! arguments, and recognizing a bare version request.

use vstd::prelude::*;
use crate::order::string_views;
use crate::text::str_eq;

verus! {

/// Whether a flag consumes the following argument as its value.
pub open spec fn flag_takes_value(f: Seq<char>) -> bool {
    f == "--db"@ || f == "--id"@ || f == "--title"@ || f == "--description"@ || f == "-d"@ || f
        == "--status"@ || f == "--due"@ || f == "--tag"@ || f == "-t"@ || f == "--repeat"@ || f
        == "--label"@ || f == "--root"@ || f == "--format"@ || f == "--limit"@
}

/// The arguments from index `i` on that are neither flags nor flag values;
/// `skip` when the previous flag takes a value. `--` is dropped and scanning
/// goes on.
pub open spec fn non_flags_from(a: Seq<Seq<char>>, i: int, skip: bool) -> Seq<Seq<char>>
    decreases a.len() - i,
{
    if i < 0 || i >= a.len() {
        seq![]
    } else if skip {
        non_flags_from(a, i + 1, false)
    } else if a[i] == "--"@ {
        non_flags_from(a, i + 1, false)
    } else if a[i].len() > 0 && a[i][0] == '-' {
        non_flags_from(a, i + 1, flag_takes_value(a[i]))
    } else {
        seq![a[i]] + non_flags_from(a, i + 1, false)
    }
}

/// Index of the first `help` in `t` at or after `i`.
pub open spec fn first_help(t: Seq<Seq<char>>, i: int) -> Option<int>
    decreases t.len() - i,
{
    if i < 0 || i >= t.len() {
        None
    } else if t[i] == "help"@ {
        Some(i)
    } else {
        first_help(t, i + 1)
    }
}

/// The rich-help topic path requested by `args` (without the program name):
/// `help [path…]`, or `… help` at any depth, flags and their values ignored.
pub open spec fn help_path(args: Seq<Seq<char>>) -> Option<Seq<Seq<char>>> {
    let tokens = non_flags_from(args, 0, false);
    if args.len() == 0 || tokens.len() == 0 {
        None
    } else if tokens[0] == "help"@ {
        Some(tokens.subrange(1, tokens.len() as int))
    } else {
        match first_help(tokens, 0) {
            Some(idx) => Some(tokens.subrange(0, idx)),
            None => None,
        }
    }
}

/// Whether `flag` takes a value.
pub fn takes_value(flag: &str) -> (r: bool)
    ensures
        r == flag_takes_value(flag@),
{
    str_eq(flag, "--db") || str_eq(flag, "--id") || str_eq(flag, "--title") || str_eq(
        flag,
        "--description",
    ) || str_eq(flag, "-d") || str_eq(flag, "--status") || str_eq(flag, "--due") || str_eq(
        flag,
        "--tag",
    ) || str_eq(flag, "-t") || str_eq(flag, "--repeat") || str_eq(flag, "--label") || str_eq(
        flag,
        "--root",
    ) || str_eq(flag, "--format") || str_eq(flag, "--limit")
}

/// The arguments that are neither flags nor flag values, in order.
pub fn non_flag_tokens(args: &[String]) -> (r: Vec<String>)
    ensures
        string_views(r@) == non_flags_from(string_views(args@), 0, false),
{
    let ghost a = string_views(args@);
    let mut out: Vec<String> = Vec::new();
    let mut skip_next = false;
    let mut i: usize = 0;
    while i < args.len()
        invariant
            i <= args@.len() == a.len(),
            a == string_views(args@),
            string_views(out@) + non_flags_from(a, i as int, skip_next) == non_flags_from(
                a,
                0,
                false,
            ),
        decreases args@.len() - i,
    {
        let arg = &args[i];
        assert(a[i as int] == arg@);
        if skip_next {
            skip_next = false;
            i += 1;
            continue ;
        }
        if str_eq(arg.as_str(), "--") {
            i += 1;
            continue ;
        }
        let first_dash = starts_with_dash(arg.as_str());
        if first_dash {
            skip_next = takes_value(arg.as_str());
            i += 1;
            continue ;
        }
        let ghost before = out@;
        out.push(arg.clone());
        proof {
            assert(string_views(out@) == string_views(before).push(arg@));
            assert(string_views(before).push(arg@) + non_flags_from(a, i + 1, false)
                == string_views(before) + (seq![arg@] + non_flags_from(a, i + 1, false)));
        }
        i += 1;
    }
    assert(string_views(out@) + seq![] == string_views(out@));
    out
}

/// Whether `s` starts with `-`.
fn starts_with_dash(s: &str) -> (r: bool)
    ensures
        r == (s@.len() > 0 && s@[0] == '-'),
{
    let v = crate::text::to_chars(s);
    v.len() > 0 && v[0] == '-'
}

/// If `args` (without the program name) requests rich help, the topic path.
///
/// Recognizes `help [path…]` and `… help` (trailing help at any depth).
pub fn extract_help_path(args: &[String]) -> (r: Option<Vec<String>>)
    ensures
        match r {
            Some(p) => help_path(string_views(args@)) == Some(string_views(p@)),
            None => help_path(string_views(args@)) is None,
        },
{
    if args.len() == 0 {
        return None;
    }
    let tokens = non_flag_tokens(args);
    let ghost t = string_views(tokens@);
    if tokens.len() == 0 {
        return None;
    }
    assert(t[0] == tokens@[0]@);
    let first_is_help = str_eq(tokens[0].as_str(), "help");
    if first_is_help {
        return Some(copy_range(&tokens, 1, tokens.len()));
    }
    let mut idx: usize = 0;
    while idx < tokens.len()
        invariant
            idx <= tokens@.len(),
            t == string_views(tokens@),
            t == non_flags_from(string_views(args@), 0, false),
            args@.len() > 0,
            t.len() > 0,
            t[0] != "help"@,
            first_help(t, 0) == first_help(t, idx as int),
        decreases tokens@.len() - idx,
    {
        assert(t[idx as int] == tokens@[idx as int]@);
        if str_eq(tokens[idx].as_str(), "help") {
            return Some(copy_range(&tokens, 0, idx));
        }
        idx += 1;
    }
    None
}

/// A copy of `v[lo..hi]`.
fn copy_range(v: &Vec<String>, lo: usize, hi: usize) -> (r: Vec<String>)
    requires
        lo <= hi <= v@.len(),
    ensures
        string_views(r@) == string_views(v@).subrange(lo as int, hi as int),
{
    let mut r: Vec<String> = Vec::new();
    let mut i = lo;
    while i < hi
        invariant
            lo <= i <= hi <= v@.len(),
            string_views(r@) == string_views(v@).subrange(lo as int, i as int),
        decreases hi - i,
    {
        let ghost before = r@;
        r.push(v[i].clone());
        assert(string_views(r@) == string_views(before).push(v@[i as int]@));
        i += 1;
    }
    r
}

/// Whether `args` asks only for the version: a version flag and no command.
pub open spec fn version_request(args: Seq<Seq<char>>) -> bool {
    (exists|i: int|
        0 <= i < args.len() && (#[trigger] args[i] == "-v"@ || args[i] == "-V"@ || args[i]
            == "--version"@)) && !(exists|i: int|
        0 <= i < args.len() && (#[trigger] args[i] == "tasks"@ || args[i] == "wiki"@ || args[i]
            == "sync"@ || args[i] == "update"@ || args[i] == "help"@))
}

/// Whether the arguments ask only for the version (`-v`, `-V` or `--version`
/// with no command).
pub fn is_version_request(args: &[String]) -> (r: bool)
    ensures
        r == version_request(string_views(args@)),
{
    let ghost a = string_views(args@);
    let mut has_version = false;
    let mut has_command = false;
    let mut i: usize = 0;
    while i < args.len()
        invariant
            i <= args@.len() == a.len(),
            a == string_views(args@),
            has_version == exists|k: int|
                0 <= k < i && (#[trigger] a[k] == "-v"@ || a[k] == "-V"@ || a[k] == "--version"@),
            has_command == exists|k: int|
                0 <= k < i && (#[trigger] a[k] == "tasks"@ || a[k] == "wiki"@ || a[k] == "sync"@
                    || a[k] == "update"@ || a[k] == "help"@),
        decreases args@.len() - i,
    {
        let s = args[i].as_str();
        assert(a[i as int] == s@);
        if str_eq(s, "-v") || str_eq(s, "-V") || str_eq(s, "--version") {
            has_version = true;
        }
        if str_eq(s, "tasks") || str_eq(s, "wiki") || str_eq(s, "sync") || str_eq(s, "update")
            || str_eq(s, "help") {
            has_command = true;
        }
        i += 1;
    }
    has_version && !has_command
}

} // verus!
