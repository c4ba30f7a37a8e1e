//! General mode: what `--kill` reads from a pidfile and what it reports.
//! Reading the file and signalling the process are the caller's part.

use vstd::prelude::*;
use vstd::string::StringSliceAdditionalSpecFns;
use vstd::string::StrSliceExecFns;
use vstd::utf8::encode_utf8;

use crate::bytes::{parse_bounded, parse_unsigned_upto};
use crate::error::{AppError, EXIT_FAILURE};
use crate::text::{cat3, decimal, decimal_string, lossy_string, owned, utf8_lossy};

verus! {

/// Seconds a server is given to exit before it is force-killed.
pub const KILL_TIMEOUT_SECS: u64 = 5;

/// Unicode `White_Space`, the whitespace `str::trim` removes.
pub open spec fn is_white_space(c: char) -> bool {
    let n = c as u32;
    ||| 0x9 <= n <= 0xd
    ||| n == 0x20
    ||| n == 0x85
    ||| n == 0xa0
    ||| n == 0x1680
    ||| 0x2000 <= n <= 0x200a
    ||| n == 0x2028
    ||| n == 0x2029
    ||| n == 0x202f
    ||| n == 0x205f
    ||| n == 0x3000
}

/// `s` without its leading and trailing whitespace.
pub open spec fn trimmed(s: Seq<char>) -> Seq<char>
    decreases s.len(),
{
    if s.len() > 0 && is_white_space(s[0]) {
        trimmed(s.drop_first())
    } else if s.len() > 0 && is_white_space(s.last()) {
        trimmed(s.drop_last())
    } else {
        s
    }
}

/// Whether `c` is whitespace in the sense of [`is_white_space`].
fn is_white_space_char(c: char) -> (b: bool)
    ensures
        b == is_white_space(c),
{
    let n = c as u32;
    (0x9 <= n && n <= 0xd) || n == 0x20 || n == 0x85 || n == 0xa0 || n == 0x1680 || (0x2000 <= n
        && n <= 0x200a) || n == 0x2028 || n == 0x2029 || n == 0x202f || n == 0x205f || n == 0x3000
}

/// `lo..hi` is the span of `s` left when its leading and trailing whitespace
/// is taken off.
spec fn trim_span(s: Seq<char>, lo: int, hi: int) -> bool {
    &&& 0 <= lo <= hi <= s.len()
    &&& forall|i: int| 0 <= i < lo ==> is_white_space(#[trigger] s[i])
    &&& lo < s.len() ==> !is_white_space(s[lo])
    &&& forall|i: int| hi <= i < s.len() ==> is_white_space(#[trigger] s[i])
    &&& lo < hi ==> !is_white_space(s[hi - 1])
}

proof fn lemma_trim_span(s: Seq<char>, lo: int, hi: int)
    requires
        trim_span(s, lo, hi),
    ensures
        trimmed(s) == s.subrange(lo, hi),
    decreases s.len(),
{
    if s.len() > 0 && is_white_space(s[0]) {
        let t = s.drop_first();
        assert(trim_span(t, lo - 1, hi - 1)) by {
            assert forall|i: int| 0 <= i < lo - 1 implies is_white_space(#[trigger] t[i]) by {
                assert(is_white_space(s[i + 1]));
            }
            assert forall|i: int| hi - 1 <= i < t.len() implies is_white_space(#[trigger] t[i]) by {
                assert(is_white_space(s[i + 1]));
            }
        }
        lemma_trim_span(t, lo - 1, hi - 1);
        assert(t.subrange(lo - 1, hi - 1) =~= s.subrange(lo, hi));
    } else if s.len() > 0 && is_white_space(s.last()) {
        if lo > 0 {
            assert(is_white_space(s[0]));
        }
        let t = s.drop_last();
        assert(hi < s.len());
        assert(trim_span(t, lo, hi)) by {
            assert forall|i: int| hi <= i < t.len() implies is_white_space(#[trigger] t[i]) by {
                assert(is_white_space(s[i]));
            }
        }
        lemma_trim_span(t, lo, hi);
        assert(t.subrange(lo, hi) =~= s.subrange(lo, hi));
    } else {
        if lo > 0 {
            assert(is_white_space(s[0]));
        }
        if hi < s.len() {
            assert(is_white_space(s[s.len() - 1]));
        }
        assert(s.subrange(lo, hi) =~= s);
    }
}

/// `s` without its leading and trailing whitespace, as `str::trim` gives it.
fn trim_text(s: &str) -> (r: String)
    ensures
        r@ == trimmed(s@),
{
    let n = s.unicode_len();
    let mut lo: usize = 0;
    while lo < n && is_white_space_char(s.get_char(lo))
        invariant
            n == s@.len(),
            lo <= n,
            forall|i: int| 0 <= i < lo ==> is_white_space(#[trigger] s@[i]),
        decreases n - lo,
    {
        lo = lo + 1;
    }
    let mut hi: usize = n;
    while hi > lo && is_white_space_char(s.get_char(hi - 1))
        invariant
            n == s@.len(),
            lo <= hi <= n,
            forall|i: int| hi <= i < n ==> is_white_space(#[trigger] s@[i]),
        decreases hi - lo,
    {
        hi = hi - 1;
    }
    proof {
        lemma_trim_span(s@, lo as int, hi as int);
    }
    owned(s.substring_char(lo, hi))
}

/// The pid a pidfile holds: its text, trimmed, read as a `u32`.
pub open spec fn pid_of(content: Seq<char>) -> Option<u32> {
    match parse_bounded(encode_utf8(trimmed(content)), 0xffff_ffff) {
        Some(n) => Some(n as u32),
        None => None,
    }
}

pub open spec fn bad_pidfile_msg(path: Seq<u8>) -> Seq<char> {
    "pidfile '"@ + utf8_lossy(path) + "' does not contain a valid pid"@
}

/// The pid in the pidfile at `path` whose text is `content`.
pub fn read_pid(path: &[u8], content: &str) -> (r: Result<u32, AppError>)
    ensures
        match pid_of(content@) {
            Some(pid) => r == Ok::<u32, AppError>(pid),
            None => r matches Err(e) && e.message@ == bad_pidfile_msg(path@) && e.code
                == EXIT_FAILURE,
        },
{
    let t = trim_text(content);
    match parse_unsigned_upto(t.as_str().as_bytes(), 0xffff_ffff) {
        Some(n) => Ok(n as u32),
        None => {
            let p = lossy_string(path);
            Err(AppError::failure(cat3("pidfile '", p.as_str(), "' does not contain a valid pid")))
        },
    }
}

pub open spec fn not_terminated_msg(pid: u32) -> Seq<char> {
    "could not terminate server with pid "@ + decimal(pid as nat)
}

/// The error when the server did not exit.
pub fn not_terminated(pid: u32) -> (e: AppError)
    ensures
        e.message@ == not_terminated_msg(pid),
        e.code == EXIT_FAILURE,
{
    let mut m = owned("could not terminate server with pid ");
    m.append(decimal_string(pid as u64).as_str());
    AppError::failure(m)
}

} // verus!
