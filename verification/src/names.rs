//! Default socket / pidfile names and discovery among the names of the files
//! in the current directory (prefix/suffix matching, no globbing).
//!
//! Listing the directory is the caller's part: it hands over the file names,
//! as bytes, and gets back the path of the single match.

use vstd::prelude::*;
use vstd::string::StringSliceAdditionalSpecFns;

use crate::bytes::{append_slice, ends_with, starts_with};
use crate::config::{NAME_PREFIX, PIDFILE_SUFFIX, SOCKET_SUFFIX};
use crate::error::{AppError, EXIT_FAILURE};
use crate::text::{cat, cat3, decimal, decimal_string, owned, utf8_lossy};

verus! {

// ---- the command name ---------------------------------------------------------------

/// The name used in default file names, given the file name of the REPL's
/// executable: the file name itself, or `"repl"` when there is none.
pub open spec fn cmdname_of_spec(file_name: Option<Seq<char>>) -> Seq<char> {
    match file_name {
        Some(n) => if n.len() > 0 {
            n
        } else {
            "repl"@
        },
        None => "repl"@,
    }
}

/// The text after the last `'/'` of a path (all of it when there is none).
pub open spec fn after_last_slash(p: Seq<char>) -> Seq<char>
    decreases p.len(),
{
    if p.len() == 0 {
        p
    } else if p.last() == '/' {
        Seq::empty()
    } else {
        after_last_slash(p.drop_last()).push(p.last())
    }
}

/// A path whose file name every host reads the same way: `'/'` is a
/// separator everywhere, so when the path holds no `'\\'` (a separator, and
/// the mark of verbatim prefixes, on Windows), does not start with `"//"` (a
/// UNC or device prefix on Windows), and its text after the last `'/'` is
/// non-empty, holds no `':'` (a drive prefix on Windows) and is neither `"."`
/// nor `".."`, that text is its last component.
pub open spec fn plain_file_name(p: Seq<char>) -> bool {
    let t = after_last_slash(p);
    &&& t.len() > 0
    &&& t != seq!['.']
    &&& t != seq!['.', '.']
    &&& !t.contains(':')
    &&& !p.contains('\\')
    &&& !(p.len() >= 2 && p[0] == '/' && p[1] == '/')
}

/// `n` occurs in `p` as a contiguous piece.
pub open spec fn occurs_in(n: Seq<char>, p: Seq<char>) -> bool {
    exists|i: int| 0 <= i && i + n.len() <= p.len() && #[trigger] p.subrange(i, i + n.len()) == n
}

/// `std::path::Path::new(path).file_name()`, as text. Its documentation says
/// it returns the final component of the path, if there is one; a component
/// is a non-empty piece of the path, and which characters separate components
/// depends on the host. For a path whose file name every host reads alike
/// (`plain_file_name`), that is the text after the last `'/'`; nothing more is
/// promised of other paths.
#[verifier::external_body]
fn path_file_name(path: &str) -> (r: Option<String>)
    ensures
        plain_file_name(path@) ==> r is Some && r->0@ == after_last_slash(path@),
        r matches Some(n) ==> n@.len() > 0 && occurs_in(n@, path@),
{
    match std::path::Path::new(path).file_name() {
        Some(n) => Some(n.to_string_lossy().into_owned()),
        None => None,
    }
}

/// The command name for a given file name of the REPL's executable.
pub fn cmdname_of(file_name: Option<String>) -> (r: String)
    ensures
        r@ == cmdname_of_spec(
            match file_name {
                Some(n) => Some(n@),
                None => None,
            },
        ),
{
    match file_name {
        Some(n) => {
            if n.unicode_len() > 0 {
                n
            } else {
                owned("repl")
            }
        },
        None => owned("repl"),
    }
}

/// File name of the REPL executable without its directory, used in default
/// file names. Falls back to `"repl"` if it cannot be determined.
pub fn cmdname(executable: &[u8]) -> (r: String)
    ensures
        plain_file_name(utf8_lossy(executable@)) ==> r@ == after_last_slash(
            utf8_lossy(executable@),
        ),
        r@ == "repl"@ || occurs_in(r@, utf8_lossy(executable@)),
        r@.len() > 0,
{
    let text = crate::text::lossy_string(executable);
    proof {
        reveal_strlit("repl");
    }
    cmdname_of(path_file_name(text.as_str()))
}

// ---- default names ----------------------------------------------------------------

/// `./.replstoke_pid<pid>_<cmdname><suffix>`
pub open spec fn default_name(cmdname: Seq<char>, pid: u32, suffix: Seq<char>) -> Seq<char> {
    "./"@ + NAME_PREFIX@ + decimal(pid as nat) + "_"@ + cmdname + suffix
}

fn default_path(cmdname: &str, pid: u32, suffix: &str) -> (p: String)
    ensures
        p@ == default_name(cmdname@, pid, suffix@),
{
    let mut p = cat("./", NAME_PREFIX);
    let digits = decimal_string(pid as u64);
    p.append(digits.as_str());
    p.append("_");
    p.append(cmdname);
    p.append(suffix);
    p
}

/// `./.replstoke_pid<pid>_<cmdname>_socket`
pub fn default_socket_path(cmdname: &str, pid: u32) -> (p: String)
    ensures
        p@ == default_name(cmdname@, pid, SOCKET_SUFFIX@),
{
    default_path(cmdname, pid, SOCKET_SUFFIX)
}

/// `./.replstoke_pid<pid>_<cmdname>_pidfile`
pub fn default_pidfile_path(cmdname: &str, pid: u32) -> (p: String)
    ensures
        p@ == default_name(cmdname@, pid, PIDFILE_SUFFIX@),
{
    default_path(cmdname, pid, PIDFILE_SUFFIX)
}

// ---- discovery --------------------------------------------------------------------

/// Whether a file name starts with `pre` and ends with `suf`.
pub open spec fn has_affixes(name: Seq<u8>, pre: Seq<u8>, suf: Seq<u8>) -> bool {
    &&& pre.len() <= name.len()
    &&& name.subrange(0, pre.len() as int) == pre
    &&& suf.len() <= name.len()
    &&& name.subrange(name.len() - suf.len(), name.len() as int) == suf
}

/// How many of the names match.
pub open spec fn count_matching(names: Seq<Seq<u8>>, pre: Seq<u8>, suf: Seq<u8>) -> nat
    decreases names.len(),
{
    if names.len() == 0 {
        0
    } else {
        count_matching(names.drop_last(), pre, suf) + if has_affixes(names.last(), pre, suf) {
            1nat
        } else {
            0nat
        }
    }
}

/// The last of the names that matches.
pub open spec fn last_matching(names: Seq<Seq<u8>>, pre: Seq<u8>, suf: Seq<u8>) -> Option<Seq<u8>>
    decreases names.len(),
{
    if names.len() == 0 {
        None
    } else if has_affixes(names.last(), pre, suf) {
        Some(names.last())
    } else {
        last_matching(names.drop_last(), pre, suf)
    }
}

/// The pattern as it is shown in messages: `./<prefix>*<suffix>`.
pub open spec fn pattern_text(prefix: Seq<char>, suffix: Seq<char>) -> Seq<char> {
    "./"@ + prefix + "*"@ + suffix
}

/// The path of the single file whose name matches, or the error.
pub open spec fn discover_spec(names: Seq<Seq<u8>>, prefix: &str, suffix: &str, kind: Seq<char>) -> Result<Seq<u8>, Seq<char>> {
    let n = count_matching(names, prefix.spec_bytes(), suffix.spec_bytes());
    if n == 1 {
        Ok(seq![46u8, 47u8] + last_matching(names, prefix.spec_bytes(), suffix.spec_bytes())->0)
    } else if n == 0 {
        Err("no "@ + kind + " found matching "@ + pattern_text(prefix@, suffix@))
    } else {
        Err(
            "found "@ + decimal(n) + " "@ + kind + " matching "@ + pattern_text(prefix@, suffix@)
                + "; specify one explicitly"@,
        )
    }
}

/// Discover exactly one file among `names` (the file names in the current
/// directory) that starts with `prefix` and ends with `suffix`; socket and
/// pidfile names share a prefix and differ only by suffix. `kind` names the
/// thing for error messages.
pub fn discover_one_in(names: &Vec<Vec<u8>>, prefix: &str, suffix: &str, kind: &str) -> (r: Result<
    Vec<u8>,
    AppError,
>)
    ensures
        match discover_spec(names@.map_values(|v: Vec<u8>| v@), prefix, suffix, kind@) {
            Ok(p) => r matches Ok(v) && v@ == p,
            Err(m) => r matches Err(e) && e.message@ == m && e.code == EXIT_FAILURE,
        },
{
    let ghost all = names@.map_values(|v: Vec<u8>| v@);
    let pre = prefix.as_bytes();
    let suf = suffix.as_bytes();
    let mut count: usize = 0;
    let mut found: Option<usize> = None;
    let mut i: usize = 0;
    while i < names.len()
        invariant
            i <= names@.len(),
            all == names@.map_values(|v: Vec<u8>| v@),
            pre@ == prefix.spec_bytes(),
            suf@ == suffix.spec_bytes(),
            count == count_matching(all.take(i as int), pre@, suf@),
            count <= i,
            (count == 0) == (found is None),
            match found {
                Some(k) => k < i && last_matching(all.take(i as int), pre@, suf@) == Some(all[k as int]),
                None => last_matching(all.take(i as int), pre@, suf@) is None,
            },
        decreases names@.len() - i,
    {
        let name: &Vec<u8> = &names[i];
        assert(all.take(i + 1).drop_last() =~= all.take(i as int));
        assert(all.take(i + 1).last() == name@);
        if starts_with(name.as_slice(), pre) && ends_with(name.as_slice(), suf) {
            count = count + 1;
            found = Some(i);
        }
        i = i + 1;
    }
    assert(all.take(names@.len() as int) =~= all);
    if count == 1 {
        let k = match found {
            Some(k) => k,
            None => 0,
        };
        let mut p: Vec<u8> = Vec::new();
        p.push(46u8);
        p.push(47u8);
        append_slice(&mut p, names[k].as_slice());
        Ok(p)
    } else if count == 0 {
        let mut m = cat3("no ", kind, " found matching ");
        m.append("./");
        m.append(prefix);
        m.append("*");
        m.append(suffix);
        Err(AppError::failure(m))
    } else {
        let mut m = cat("found ", decimal_string(count as u64).as_str());
        m.append(" ");
        m.append(kind);
        m.append(" matching ");
        m.append("./");
        m.append(prefix);
        m.append("*");
        m.append(suffix);
        m.append("; specify one explicitly");
        Err(AppError::failure(m))
    }
}

/// Find a single `./.replstoke_pid*_socket` for client unix discovery, among
/// the file names of the current directory.
pub fn discover_socket(names: &Vec<Vec<u8>>) -> (r: Result<Vec<u8>, AppError>)
    ensures
        match discover_spec(names@.map_values(|v: Vec<u8>| v@), NAME_PREFIX, SOCKET_SUFFIX, "socket"@) {
            Ok(p) => r matches Ok(v) && v@ == p,
            Err(m) => r matches Err(e) && e.message@ == m && e.code == EXIT_FAILURE,
        },
{
    discover_one_in(names, NAME_PREFIX, SOCKET_SUFFIX, "socket")
}

/// Find a single `./.replstoke_pid*_pidfile` for `--kill` discovery, among
/// the file names of the current directory.
pub fn discover_pidfile(names: &Vec<Vec<u8>>) -> (r: Result<Vec<u8>, AppError>)
    ensures
        match discover_spec(names@.map_values(|v: Vec<u8>| v@), NAME_PREFIX, PIDFILE_SUFFIX, "pidfile"@) {
            Ok(p) => r matches Ok(v) && v@ == p,
            Err(m) => r matches Err(e) && e.message@ == m && e.code == EXIT_FAILURE,
        },
{
    discover_one_in(names, NAME_PREFIX, PIDFILE_SUFFIX, "pidfile")
}

} // verus!
