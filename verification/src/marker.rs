//! Streaming end-of-response marker scanner.
//!
//! Bytes are fed in arbitrary chunks. The scanner emits everything that cannot
//! possibly be part of a future marker match immediately, and holds back the
//! trailing bytes that could begin a marker so that a marker straddling two
//! chunks is still detected. On a full match it reports completion, optionally
//! stripping the marker from the output.
//!
//! A single stream may be watched for several markers at once, each carrying the
//! [`Outcome`] it signals: an *end* marker means the response finished normally,
//! an *error* marker means it finished with an error. The earliest match wins.

use vstd::prelude::*;

use crate::bytes::{append_slice, bytes_equal_at, slice_range};

verus! {

/// What a matched marker signals about the response.
#[derive(Debug, Clone, Copy, PartialEq, Eq, Structural)]
pub enum Outcome {
    /// Response finished normally (success).
    End,
    /// Response finished with an error.
    Error,
}

/// The abstract value of a marker list: each marker's bytes with its outcome.
pub type MarkerList = Seq<(Seq<u8>, Outcome)>;

// ---- matching, as mathematics ---------------------------------------------

/// `m` occurs in `s` starting at `p`.
pub open spec fn matches_at(s: Seq<u8>, m: Seq<u8>, p: int) -> bool {
    0 <= p && p + m.len() <= s.len() && s.subrange(p, p + m.len()) == m
}

/// The first position at or after `p` where the non-empty `m` occurs in `s`.
pub open spec fn first_match_from(s: Seq<u8>, m: Seq<u8>, p: nat) -> Option<int>
    decreases s.len() - p,
{
    if m.len() == 0 || p + m.len() > s.len() {
        None
    } else if matches_at(s, m, p as int) {
        Some(p as int)
    } else {
        first_match_from(s, m, p + 1)
    }
}

/// The first position where the non-empty `m` occurs in `s`.
pub open spec fn first_match(s: Seq<u8>, m: Seq<u8>) -> Option<int> {
    first_match_from(s, m, 0)
}

/// Earliest match among the first `k` markers of `ms` in `s`, as
/// `(position, marker length, outcome)`. On equal positions the marker listed
/// first wins.
pub open spec fn earliest_upto(ms: MarkerList, s: Seq<u8>, k: nat) -> Option<(int, int, Outcome)>
    decreases k,
{
    if k == 0 {
        None
    } else {
        let best = earliest_upto(ms, s, (k - 1) as nat);
        let m = ms[k - 1];
        match first_match(s, m.0) {
            Some(p) => if best is None || p < best.unwrap().0 {
                Some((p, m.0.len() as int, m.1))
            } else {
                best
            },
            None => best,
        }
    }
}

/// Earliest match of any marker of `ms` in `s`.
pub open spec fn earliest(ms: MarkerList, s: Seq<u8>) -> Option<(int, int, Outcome)> {
    earliest_upto(ms, s, ms.len())
}

/// No marker of `ms` occurs anywhere in `s`.
pub open spec fn no_match(ms: MarkerList, s: Seq<u8>) -> bool {
    forall|i: int, p: int| 0 <= i < ms.len() ==> !#[trigger] matches_at(s, ms[i].0, p)
}

/// The last `l` bytes of `s` are the first `l` bytes of `m`.
pub open spec fn suffix_is_prefix(s: Seq<u8>, m: Seq<u8>, l: int) -> bool {
    0 <= l <= s.len() && l <= m.len() && s.subrange(s.len() - l, s.len() as int)
        == m.subrange(0, l)
}

/// Longest `l <= start` (and `l > 0`) with `suffix_is_prefix(s, m, l)`, else 0.
pub open spec fn overlap_from(s: Seq<u8>, m: Seq<u8>, start: nat) -> nat
    decreases start,
{
    if start == 0 {
        0
    } else if suffix_is_prefix(s, m, start as int) {
        start
    } else {
        overlap_from(s, m, (start - 1) as nat)
    }
}

/// Length of the longest suffix of `s` that is a proper prefix of `m`.
pub open spec fn overlap_one(s: Seq<u8>, m: Seq<u8>) -> nat {
    let cap: int = if m.len() - 1 < s.len() { m.len() - 1 } else { s.len() as int };
    if cap <= 0 { 0 } else { overlap_from(s, m, cap as nat) }
}

/// Longest suffix of `s` that is a proper prefix of one of the first `k` markers.
pub open spec fn overlap_upto(ms: MarkerList, s: Seq<u8>, k: nat) -> nat
    decreases k,
{
    if k == 0 {
        0
    } else {
        let a = overlap_upto(ms, s, (k - 1) as nat);
        let b = overlap_one(s, ms[k - 1].0);
        if a < b { b } else { a }
    }
}

/// Longest suffix of `s` that is a proper prefix of some marker: the bytes that
/// must be held back because a later chunk may complete a marker.
pub open spec fn overlap(ms: MarkerList, s: Seq<u8>) -> nat {
    overlap_upto(ms, s, ms.len())
}

/// Every marker of the list is non-empty.
pub open spec fn all_nonempty(ms: MarkerList) -> bool {
    forall|i: int| 0 <= i < ms.len() ==> (#[trigger] ms[i]).0.len() > 0
}

/// Keep only the non-empty markers, preserving their order.
pub open spec fn drop_empty(ms: MarkerList) -> MarkerList
    decreases ms.len(),
{
    if ms.len() == 0 {
        ms
    } else {
        let rest = drop_empty(ms.drop_first());
        if ms[0].0.len() == 0 {
            rest
        } else {
            seq![ms[0]] + rest
        }
    }
}

/// The abstract value of a vector of `(marker, outcome)` pairs.
pub open spec fn pairs_view(v: Seq<(Vec<u8>, Outcome)>) -> MarkerList {
    v.map_values(|p: (Vec<u8>, Outcome)| (p.0@, p.1))
}

// ---- lemmas ------------------------------------------------------------------

proof fn lemma_first_match_from(s: Seq<u8>, m: Seq<u8>, p: nat)
    requires
        m.len() > 0,
    ensures
        match first_match_from(s, m, p) {
            Some(q) => p <= q && matches_at(s, m, q) && forall|r: int|
                p <= r < q ==> !matches_at(s, m, r),
            None => forall|r: int| p <= r ==> !matches_at(s, m, r),
        },
    decreases s.len() - p,
{
    if p + m.len() > s.len() {
    } else if matches_at(s, m, p as int) {
    } else {
        lemma_first_match_from(s, m, p + 1);
    }
}

/// `first_match` is the least matching position, or `None` if there is none.
pub proof fn lemma_first_match(s: Seq<u8>, m: Seq<u8>)
    requires
        m.len() > 0,
    ensures
        match first_match(s, m) {
            Some(q) => matches_at(s, m, q) && forall|r: int| r < q ==> !matches_at(s, m, r),
            None => forall|r: int| !matches_at(s, m, r),
        },
{
    lemma_first_match_from(s, m, 0);
}

/// Two sequences with the same match positions have the same first match.
proof fn lemma_first_match_eq_shift(s: Seq<u8>, t: Seq<u8>, m: Seq<u8>, d: int)
    requires
        m.len() > 0,
        forall|r: int| matches_at(s, m, r) <==> matches_at(t, m, r - d),
    ensures
        first_match(s, m) == (match first_match(t, m) {
            Some(q) => Some(q + d),
            None => None::<int>,
        }),
{
    lemma_first_match(s, m);
    lemma_first_match(t, m);
    match first_match(t, m) {
        Some(q) => {
            assert(matches_at(s, m, q + d));
            match first_match(s, m) {
                Some(p) => {
                    assert(matches_at(t, m, p - d));
                }
                None => {}
            }
        }
        None => {
            match first_match(s, m) {
                Some(p) => {
                    assert(matches_at(t, m, p - d));
                }
                None => {}
            }
        }
    }
}

proof fn lemma_earliest_upto_shift(ms: MarkerList, s: Seq<u8>, t: Seq<u8>, d: int, k: nat)
    requires
        k <= ms.len(),
        forall|i: int| 0 <= i < k ==> (#[trigger] first_match(s, ms[i].0)) == (match first_match(t, ms[i].0) {
            Some(q) => Some(q + d),
            None => None::<int>,
        }),
    ensures
        earliest_upto(ms, s, k) == (match earliest_upto(ms, t, k) {
            Some(e) => Some((e.0 + d, e.1, e.2)),
            None => None::<(int, int, Outcome)>,
        }),
    decreases k,
{
    if k > 0 {
        lemma_earliest_upto_shift(ms, s, t, d, (k - 1) as nat);
        assert(first_match(s, ms[k - 1].0) == (match first_match(t, ms[k - 1].0) {
            Some(q) => Some(q + d),
            None => None::<int>,
        }));
    }
}

proof fn lemma_earliest_upto_none(ms: MarkerList, s: Seq<u8>, k: nat)
    requires
        k <= ms.len(),
        all_nonempty(ms),
    ensures
        (earliest_upto(ms, s, k) is None) <==> (forall|i: int, p: int|
            0 <= i < k ==> !#[trigger] matches_at(s, ms[i].0, p)),
    decreases k,
{
    if k > 0 {
        lemma_earliest_upto_none(ms, s, (k - 1) as nat);
        let m = ms[k - 1].0;
        assert(m.len() > 0);
        lemma_first_match(s, m);
        if earliest_upto(ms, s, k) is None {
            assert forall|i: int, p: int| 0 <= i < k implies !#[trigger] matches_at(s, ms[i].0, p) by {
                if i == k - 1 {
                } else {
                }
            }
        } else {
            if earliest_upto(ms, s, (k - 1) as nat) is None {
                let q = first_match(s, m).unwrap();
                assert(!matches_at(s, ms[k - 1].0, q) ==> false);
            }
        }
    }
}

/// No earliest match exactly when no marker occurs at all.
pub proof fn lemma_earliest_none(ms: MarkerList, s: Seq<u8>)
    requires
        all_nonempty(ms),
    ensures
        (earliest(ms, s) is None) <==> no_match(ms, s),
{
    lemma_earliest_upto_none(ms, s, ms.len());
}

proof fn lemma_earliest_upto_sound(ms: MarkerList, s: Seq<u8>, k: nat)
    requires
        k <= ms.len(),
        all_nonempty(ms),
    ensures
        match earliest_upto(ms, s, k) {
            Some(e) => exists|i: int|
                0 <= i < k && #[trigger] ms[i].0.len() == e.1 && ms[i].1 == e.2 && matches_at(
                    s,
                    ms[i].0,
                    e.0,
                ) && first_match(s, ms[i].0) == Some(e.0),
            None => true,
        },
        match earliest_upto(ms, s, k) {
            Some(e) => forall|i: int, p: int|
                0 <= i < k && #[trigger] matches_at(s, ms[i].0, p) ==> e.0 <= p,
            None => true,
        },
    decreases k,
{
    if k > 0 {
        lemma_earliest_upto_sound(ms, s, (k - 1) as nat);
        lemma_earliest_upto_none(ms, s, (k - 1) as nat);
        let m = ms[k - 1].0;
        lemma_first_match(s, m);
        match earliest_upto(ms, s, k) {
            Some(e) => {
                if first_match(s, m) == Some(e.0) && e.1 == m.len() && e.2 == ms[k - 1].1 {
                    assert(ms[k - 1].0.len() == e.1);
                }
                assert forall|i: int, p: int|
                    0 <= i < k && #[trigger] matches_at(s, ms[i].0, p) implies e.0 <= p by {
                    if i == k - 1 {
                    } else {
                        lemma_first_match(s, ms[i].0);
                    }
                }
            }
            None => {}
        }
    }
}

/// The earliest match is a real occurrence of a listed marker, and no marker
/// occurs before it.
pub proof fn lemma_earliest_sound(ms: MarkerList, s: Seq<u8>)
    requires
        all_nonempty(ms),
    ensures
        match earliest(ms, s) {
            Some(e) => (exists|i: int|
                0 <= i < ms.len() && #[trigger] ms[i].0.len() == e.1 && ms[i].1 == e.2
                    && matches_at(s, ms[i].0, e.0)) && (forall|i: int, p: int|
                0 <= i < ms.len() && #[trigger] matches_at(s, ms[i].0, p) ==> e.0 <= p),
            None => true,
        },
{
    lemma_earliest_upto_sound(ms, s, ms.len());
}

proof fn lemma_overlap_from(s: Seq<u8>, m: Seq<u8>, start: nat)
    ensures
        overlap_from(s, m, start) <= start,
        overlap_from(s, m, start) == 0 || suffix_is_prefix(s, m, overlap_from(s, m, start) as int),
        forall|l: int| 0 < l <= start && suffix_is_prefix(s, m, l) ==> l <= overlap_from(s, m, start),
    decreases start,
{
    if start > 0 {
        lemma_overlap_from(s, m, (start - 1) as nat);
    }
}

/// `overlap_one` is the longest suffix of `s` that is a proper prefix of `m`.
pub proof fn lemma_overlap_one(s: Seq<u8>, m: Seq<u8>)
    ensures
        overlap_one(s, m) <= s.len(),
        overlap_one(s, m) < m.len() || overlap_one(s, m) == 0,
        overlap_one(s, m) == 0 || suffix_is_prefix(s, m, overlap_one(s, m) as int),
        forall|l: int|
            0 < l < m.len() && suffix_is_prefix(s, m, l) ==> l <= overlap_one(s, m),
{
    let cap: int = if m.len() - 1 < s.len() { m.len() - 1 } else { s.len() as int };
    if cap > 0 {
        lemma_overlap_from(s, m, cap as nat);
    }
}

proof fn lemma_overlap_upto(ms: MarkerList, s: Seq<u8>, k: nat)
    requires
        k <= ms.len(),
    ensures
        overlap_upto(ms, s, k) <= s.len(),
        forall|i: int| 0 <= i < k ==> overlap_one(s, #[trigger] ms[i].0) <= overlap_upto(ms, s, k),
        overlap_upto(ms, s, k) == 0 || exists|i: int|
            0 <= i < k && overlap_upto(ms, s, k) == overlap_one(s, #[trigger] ms[i].0),
    decreases k,
{
    if k > 0 {
        lemma_overlap_upto(ms, s, (k - 1) as nat);
        lemma_overlap_one(s, ms[k - 1].0);
    }
}

/// The held-back suffix never contains a complete marker boundary: every suffix
/// of `s` that is a proper prefix of a marker is at most `overlap(ms, s)` long.
pub proof fn lemma_overlap_max(ms: MarkerList, s: Seq<u8>)
    ensures
        overlap(ms, s) <= s.len(),
        forall|i: int, l: int|
            0 <= i < ms.len() && 0 < l < ms[i].0.len() && #[trigger] suffix_is_prefix(s, ms[i].0, l)
                ==> l <= overlap(ms, s),
{
    lemma_overlap_upto(ms, s, ms.len());
    assert forall|i: int, l: int|
        0 <= i < ms.len() && 0 < l < ms[i].0.len() && #[trigger] suffix_is_prefix(s, ms[i].0, l)
            implies l <= overlap(ms, s) by {
        lemma_overlap_one(s, ms[i].0);
    }
}

/// Two sequences whose suffixes of length at most `n` agree, and which admit no
/// marker-prefix suffix longer than `n`, have the same overlap.
proof fn lemma_overlap_one_same_tail(s: Seq<u8>, t: Seq<u8>, m: Seq<u8>, n: int)
    requires
        0 <= n <= t.len() <= s.len(),
        s.subrange(s.len() - n, s.len() as int) == t.subrange(t.len() - n, t.len() as int),
        forall|l: int| 0 < l < m.len() && suffix_is_prefix(s, m, l) ==> l <= n,
        forall|l: int| 0 < l < m.len() && suffix_is_prefix(t, m, l) ==> l <= n,
    ensures
        overlap_one(s, m) == overlap_one(t, m),
{
    lemma_overlap_one(s, m);
    lemma_overlap_one(t, m);
    let a = overlap_one(s, m) as int;
    let b = overlap_one(t, m) as int;
    if a > 0 {
        assert(a <= n);
        assert(t.subrange(t.len() - a, t.len() as int) =~= s.subrange(s.len() - a, s.len() as int))
            by {
            assert forall|j: int| 0 <= j < a implies #[trigger] t.subrange(t.len() - a, t.len() as int)[j]
                == s.subrange(s.len() - a, s.len() as int)[j] by {
                assert(t.subrange(t.len() - n, t.len() as int)[n - a + j] == s.subrange(
                    s.len() - n,
                    s.len() as int,
                )[n - a + j]);
                assert(t[t.len() - a + j] == t.subrange(t.len() - n, t.len() as int)[n - a + j]);
                assert(s[s.len() - a + j] == s.subrange(s.len() - n, s.len() as int)[n - a + j]);
            }
        }
        assert(suffix_is_prefix(t, m, a));
    }
    if b > 0 {
        assert(b <= n);
        assert(t.subrange(t.len() - b, t.len() as int) =~= s.subrange(s.len() - b, s.len() as int))
            by {
            assert forall|j: int| 0 <= j < b implies #[trigger] t.subrange(t.len() - b, t.len() as int)[j]
                == s.subrange(s.len() - b, s.len() as int)[j] by {
                assert(t.subrange(t.len() - n, t.len() as int)[n - b + j] == s.subrange(
                    s.len() - n,
                    s.len() as int,
                )[n - b + j]);
                assert(t[t.len() - b + j] == t.subrange(t.len() - n, t.len() as int)[n - b + j]);
                assert(s[s.len() - b + j] == s.subrange(s.len() - n, s.len() as int)[n - b + j]);
            }
        }
        assert(suffix_is_prefix(s, m, b));
    }
}

proof fn lemma_overlap_upto_same(ms: MarkerList, s: Seq<u8>, t: Seq<u8>, k: nat)
    requires
        k <= ms.len(),
        forall|i: int| 0 <= i < k ==> overlap_one(s, #[trigger] ms[i].0) == overlap_one(t, ms[i].0),
    ensures
        overlap_upto(ms, s, k) == overlap_upto(ms, t, k),
    decreases k,
{
    if k > 0 {
        lemma_overlap_upto_same(ms, s, t, (k - 1) as nat);
        assert(overlap_one(s, ms[k - 1].0) == overlap_one(t, ms[k - 1].0));
    }
}

/// The shift lemma behind chunked scanning. If no marker occurs in `seen`, and
/// `h` is the held-back overlap of `seen`, then scanning `seen + chunk` is the
/// same as scanning only `held + chunk` (where `held` is the last `h` bytes of
/// `seen`), with positions shifted by the number of bytes already released.
pub proof fn lemma_chunk_shift(ms: MarkerList, seen: Seq<u8>, chunk: Seq<u8>)
    requires
        all_nonempty(ms),
        no_match(ms, seen),
    ensures
        ({
            let h = overlap(ms, seen) as int;
            let base = seen.len() - h;
            let buf = seen.subrange(base, seen.len() as int) + chunk;
            let s = seen + chunk;
            &&& 0 <= base
            &&& s.subrange(base, s.len() as int) == buf
            &&& earliest(ms, s) == (match earliest(ms, buf) {
                Some(e) => Some((e.0 + base, e.1, e.2)),
                None => None::<(int, int, Outcome)>,
            })
            &&& overlap(ms, s) == overlap(ms, buf)
            &&& (no_match(ms, s) <==> no_match(ms, buf))
        }),
{
    let h = overlap(ms, seen) as int;
    lemma_overlap_max(ms, seen);
    let base = seen.len() - h;
    let buf = seen.subrange(base, seen.len() as int) + chunk;
    let s = seen + chunk;
    assert(s.subrange(base, s.len() as int) =~= buf);
    // No marker starts before `base` in `s`.
    assert forall|i: int, q: int| 0 <= i < ms.len() && q < base implies !#[trigger] matches_at(s, ms[i].0, q) by {
        let m = ms[i].0;
        if matches_at(s, m, q) {
            if q + m.len() <= seen.len() {
                assert(s.subrange(q, q + m.len()) =~= seen.subrange(q, q + m.len()));
                assert(matches_at(seen, m, q));
            } else {
                let l = seen.len() - q;
                assert(0 < l < m.len());
                assert(seen.subrange(seen.len() - l, seen.len() as int) =~= m.subrange(0, l)) by {
                    assert forall|j: int| 0 <= j < l implies #[trigger] seen.subrange(
                        seen.len() - l,
                        seen.len() as int,
                    )[j] == m.subrange(0, l)[j] by {
                        assert(s.subrange(q, q + m.len())[j] == m[j]);
                    }
                }
                assert(suffix_is_prefix(seen, m, l));
            }
        }
    }
    // Matches at or after `base` correspond one to one.
    assert forall|i: int| 0 <= i < ms.len() implies (#[trigger] first_match(s, ms[i].0)) == (
    match first_match(buf, ms[i].0) {
        Some(q) => Some(q + base),
        None => None::<int>,
    }) by {
        let m = ms[i].0;
        assert forall|r: int| matches_at(s, m, r) <==> matches_at(buf, m, r - base) by {
            if r >= base && r + m.len() <= s.len() {
                assert(s.subrange(r, r + m.len()) =~= buf.subrange(r - base, r - base + m.len()));
            }
        }
        lemma_first_match_eq_shift(s, buf, m, base);
    }
    lemma_earliest_upto_shift(ms, s, buf, base, ms.len());
    // The held-back length is the same for both.
    assert forall|i: int| 0 <= i < ms.len() implies overlap_one(s, #[trigger] ms[i].0)
        == overlap_one(buf, ms[i].0) by {
        let m = ms[i].0;
        let n = buf.len() as int;
        assert(s.subrange(s.len() - n, s.len() as int) =~= buf.subrange(0, n));
        assert(buf.subrange(buf.len() - n, buf.len() as int) =~= buf);
        assert forall|l: int| 0 < l < m.len() && suffix_is_prefix(s, m, l) implies l <= n by {
            if l > n {
                let l2 = l - chunk.len();
                assert(0 < l2 < l);
                assert(seen.subrange(seen.len() - l2, seen.len() as int) =~= m.subrange(0, l2))
                    by {
                    assert forall|j: int| 0 <= j < l2 implies #[trigger] seen.subrange(
                        seen.len() - l2,
                        seen.len() as int,
                    )[j] == m.subrange(0, l2)[j] by {
                        assert(s.subrange(s.len() - l, s.len() as int)[j] == m.subrange(0, l)[j]);
                    }
                }
                assert(suffix_is_prefix(seen, m, l2));
            }
        }
        lemma_overlap_one_same_tail(s, buf, m, n);
    }
    lemma_overlap_upto_same(ms, s, buf, ms.len());
    lemma_earliest_none(ms, s);
    lemma_earliest_none(ms, buf);
}

} // verus!

verus! {

proof fn lemma_drop_empty(ms: MarkerList)
    ensures
        all_nonempty(drop_empty(ms)),
        drop_empty(ms).len() <= ms.len(),
    decreases ms.len(),
{
    if ms.len() > 0 {
        lemma_drop_empty(ms.drop_first());
        let rest = drop_empty(ms.drop_first());
        if ms[0].0.len() != 0 {
            assert forall|i: int| 0 <= i < (seq![ms[0]] + rest).len() implies (#[trigger] (seq![
                ms[0],
            ] + rest)[i]).0.len() > 0 by {
                if i > 0 {
                    assert((seq![ms[0]] + rest)[i] == rest[i - 1]);
                }
            }
        }
    }
}

/// First position where the non-empty `needle` occurs in `haystack`.
fn find_first(haystack: &[u8], needle: &[u8]) -> (r: Option<usize>)
    requires
        needle@.len() > 0,
    ensures
        match r {
            Some(p) => first_match(haystack@, needle@) == Some(p as int),
            None => first_match(haystack@, needle@) is None,
        },
{
    let n: usize = needle.len();
    let h: usize = haystack.len();
    if n > h {
        return None;
    }
    let mut p: usize = 0;
    while p <= h - n
        invariant
            n == needle@.len(),
            h == haystack@.len(),
            n > 0,
            n <= h,
            p <= h,
            first_match(haystack@, needle@) == first_match_from(haystack@, needle@, p as nat),
        decreases h - p,
    {
        if bytes_equal_at(haystack, p, needle) {
            return Some(p);
        }
        p = p + 1;
    }
    None
}

/// Whether the last `len` bytes of `s` equal the first `len` bytes of `m`.
fn tail_matches_head(s: &[u8], m: &[u8], len: usize) -> (r: bool)
    requires
        len <= s@.len(),
        len <= m@.len(),
    ensures
        r == suffix_is_prefix(s@, m@, len as int),
{
    let sl: usize = s.len();
    let off: usize = sl - len;
    let mut k: usize = 0;
    while k < len
        invariant
            sl == s@.len(),
            k <= len,
            len <= s@.len(),
            len <= m@.len(),
            off == s@.len() - len,
            forall|j: int| 0 <= j < k ==> s@[off + j] == m@[j],
        decreases len - k,
    {
        if s[off + k] != m[k] {
            assert(s@.subrange(off as int, s@.len() as int)[k as int] != m@.subrange(
                0,
                len as int,
            )[k as int]);
            return false;
        }
        k = k + 1;
    }
    assert(s@.subrange(off as int, s@.len() as int) =~= m@.subrange(0, len as int));
    true
}

/// Length of the longest suffix of `buf` that is also a proper prefix of the
/// non-empty `marker`.
fn overlap_exec(buf: &[u8], marker: &[u8]) -> (r: usize)
    requires
        marker@.len() > 0,
    ensures
        r == overlap_one(buf@, marker@),
{
    let cap: usize = if marker.len() - 1 < buf.len() { marker.len() - 1 } else { buf.len() };
    let mut len: usize = cap;
    while len > 0
        invariant
            len <= cap,
            cap as int == (if marker@.len() - 1 < buf@.len() { marker@.len() - 1 } else { buf@.len() as int }),
            overlap_one(buf@, marker@) == (if cap == 0 { 0 } else { overlap_from(buf@, marker@, len as nat) }),
            cap == 0 ==> len == 0,
        decreases len,
    {
        if tail_matches_head(buf, marker, len) {
            return len;
        }
        len = len - 1;
    }
    0
}

/// A set of markers watched on one stream, each tagged with the [`Outcome`] it
/// signals. Empty markers are dropped, so a fully-empty set disables detection.
pub struct Markers {
    list: Vec<(Vec<u8>, Outcome)>,
}

impl View for Markers {
    type V = MarkerList;

    closed spec fn view(&self) -> MarkerList {
        pairs_view(self.list@)
    }
}

impl Markers {
    #[verifier::type_invariant]
    spec fn inv(&self) -> bool {
        all_nonempty(self@)
    }

    /// Build a marker set, dropping empty markers and keeping the order of the
    /// rest.
    pub fn new(patterns: Vec<(Vec<u8>, Outcome)>) -> (r: Markers)
        ensures
            r@ == drop_empty(pairs_view(patterns@)),
    {
        let ghost orig = pairs_view(patterns@);
        let mut patterns = patterns;
        let mut list: Vec<(Vec<u8>, Outcome)> = Vec::new();
        while patterns.len() > 0
            invariant
                pairs_view(list@) + drop_empty(pairs_view(patterns@)) == drop_empty(orig),
            decreases patterns@.len(),
        {
            let ghost before = pairs_view(patterns@);
            let (m, o) = patterns.remove(0);
            assert(pairs_view(patterns@) =~= before.drop_first());
            if m.len() > 0 {
                let ghost old_list = pairs_view(list@);
                list.push((m, o));
                assert(pairs_view(list@) =~= old_list + seq![(m@, o)]);
                assert(pairs_view(list@) + drop_empty(pairs_view(patterns@)) =~= old_list
                    + drop_empty(before));
            } else {
                assert(drop_empty(before) == drop_empty(pairs_view(patterns@)));
            }
        }
        assert(pairs_view(patterns@) =~= Seq::<(Seq<u8>, Outcome)>::empty());
        assert(pairs_view(list@) =~= drop_empty(orig));
        proof {
            lemma_drop_empty(orig);
        }
        Markers { list }
    }

    /// Whether the set watches no marker at all.
    pub fn is_empty(&self) -> (r: bool)
        ensures
            r == (self@.len() == 0),
    {
        self.list.len() == 0
    }

    /// Earliest match in `buf` as `(position, marker_len, outcome)`. On ties the
    /// pattern listed first wins.
    fn find(&self, buf: &[u8]) -> (r: Option<(usize, usize, Outcome)>)
        ensures
            match r {
                Some(e) => earliest(self@, buf@) == Some((e.0 as int, e.1 as int, e.2)),
                None => earliest(self@, buf@) is None,
            },
    {
        proof {
            use_type_invariant(self);
        }
        let mut best: Option<(usize, usize, Outcome)> = None;
        let mut i: usize = 0;
        while i < self.list.len()
            invariant
                i <= self@.len(),
                self@.len() == self.list@.len(),
                all_nonempty(self@),
                match best {
                    Some(e) => earliest_upto(self@, buf@, i as nat) == Some(
                        (e.0 as int, e.1 as int, e.2),
                    ),
                    None => earliest_upto(self@, buf@, i as nat) is None,
                },
            decreases self.list@.len() - i,
        {
            let marker: &Vec<u8> = &self.list[i].0;
            let outcome: Outcome = self.list[i].1;
            proof {
                assert(self@[i as int] == (marker@, outcome));
                assert(self@[i as int].0.len() > 0);
            }
            match find_first(buf, marker.as_slice()) {
                Some(pos) => {
                    let better = match best {
                        None => true,
                        Some(b) => pos < b.0,
                    };
                    if better {
                        best = Some((pos, marker.len(), outcome));
                    }
                }
                None => {}
            }
            i = i + 1;
        }
        best
    }

    /// Longest suffix of `buf` that is a prefix of some marker (a straddling
    /// partial match to hold back until the next chunk).
    fn overlap(&self, buf: &[u8]) -> (r: usize)
        ensures
            r == overlap(self@, buf@),
    {
        proof {
            use_type_invariant(self);
        }
        let mut best: usize = 0;
        let mut i: usize = 0;
        while i < self.list.len()
            invariant
                i <= self@.len(),
                self@.len() == self.list@.len(),
                all_nonempty(self@),
                best == overlap_upto(self@, buf@, i as nat),
            decreases self.list@.len() - i,
        {
            let marker: &Vec<u8> = &self.list[i].0;
            proof {
                assert(self@[i as int].0 == marker@);
                assert(self@[i as int].0.len() > 0);
            }
            let b = overlap_exec(buf, marker.as_slice());
            if best < b {
                best = b;
            }
            i = i + 1;
        }
        best
    }
}

} // verus!

verus! {

// ---- the scanner, as a state machine ------------------------------------------

/// Number of bytes of `seen` already released to the consumer: everything but
/// the held-back overlap.
pub open spec fn released(ms: MarkerList, seen: Seq<u8>) -> int {
    seen.len() - overlap(ms, seen)
}

/// The effect of feeding `chunk` to a scanner that has seen `seen` without a
/// match: `(Some(outcome), final bytes)` when the stream now contains a marker,
/// else `(None, bytes that may be emitted)`.
pub open spec fn feed_result(ms: MarkerList, strip: bool, seen: Seq<u8>, chunk: Seq<u8>) -> (
    Option<Outcome>,
    Seq<u8>,
) {
    let s = seen + chunk;
    match earliest(ms, s) {
        Some(e) => (
            Some(e.2),
            s.subrange(released(ms, seen), if strip { e.0 } else { e.0 + e.1 }),
        ),
        None => (None, s.subrange(released(ms, seen), released(ms, s))),
    }
}

/// Concatenation of a sequence of chunks.
pub open spec fn concat_all(chunks: Seq<Seq<u8>>) -> Seq<u8>
    decreases chunks.len(),
{
    if chunks.len() == 0 {
        Seq::empty()
    } else {
        chunks[0] + concat_all(chunks.drop_first())
    }
}

/// Feeding `chunks` one after another, then flushing if no marker was found:
/// all bytes handed out and the outcome, if any.
pub open spec fn scan_run(ms: MarkerList, strip: bool, seen: Seq<u8>, chunks: Seq<Seq<u8>>) -> (
    Seq<u8>,
    Option<Outcome>,
)
    decreases chunks.len(),
{
    if chunks.len() == 0 {
        (seen.subrange(released(ms, seen), seen.len() as int), None)
    } else {
        let r = feed_result(ms, strip, seen, chunks[0]);
        if r.0 is Some {
            (r.1, r.0)
        } else {
            let rest = scan_run(ms, strip, seen + chunks[0], chunks.drop_first());
            (r.1 + rest.0, rest.1)
        }
    }
}

/// The stream up to the end of the first chunk after which it contains a
/// marker, or the whole stream if it never does.
pub open spec fn stop_prefix(ms: MarkerList, seen: Seq<u8>, chunks: Seq<Seq<u8>>) -> Seq<u8>
    decreases chunks.len(),
{
    if chunks.len() == 0 {
        seen
    } else {
        let s = seen + chunks[0];
        if !no_match(ms, s) {
            s
        } else {
            stop_prefix(ms, s, chunks.drop_first())
        }
    }
}

/// Scanning a complete stream `s` at once: the stream up to the end of its
/// earliest marker (up to its start when stripping) and that marker's outcome,
/// or the whole stream when it holds no marker.
pub open spec fn scan_whole(ms: MarkerList, strip: bool, s: Seq<u8>) -> (Seq<u8>, Option<Outcome>) {
    match earliest(ms, s) {
        Some(e) => (s.subrange(0, if strip { e.0 } else { e.0 + e.1 }), Some(e.2)),
        None => (s, None),
    }
}

proof fn lemma_feed_bounds(ms: MarkerList, seen: Seq<u8>, chunk: Seq<u8>)
    requires
        all_nonempty(ms),
        no_match(ms, seen),
    ensures
        0 <= released(ms, seen) <= seen.len(),
        released(ms, seen) <= released(ms, seen + chunk) <= (seen + chunk).len(),
        match earliest(ms, seen + chunk) {
            Some(e) => released(ms, seen) <= e.0 && 0 < e.1 && e.0 + e.1 <= (seen + chunk).len(),
            None => true,
        },
{
    lemma_overlap_max(ms, seen);
    lemma_chunk_shift(ms, seen, chunk);
    let h = overlap(ms, seen) as int;
    let buf = seen.subrange(seen.len() - h, seen.len() as int) + chunk;
    lemma_overlap_max(ms, buf);
    lemma_overlap_max(ms, seen + chunk);
    lemma_earliest_sound(ms, buf);
    lemma_earliest_sound(ms, seen + chunk);
    match earliest(ms, buf) {
        Some(e) => {
            let i = choose|i: int|
                0 <= i < ms.len() && #[trigger] ms[i].0.len() == e.1 && ms[i].1 == e.2
                    && matches_at(buf, ms[i].0, e.0);
            assert(ms[i].0.len() > 0);
        }
        None => {}
    }
    match earliest(ms, seen + chunk) {
        Some(e) => {
            let i = choose|i: int|
                0 <= i < ms.len() && #[trigger] ms[i].0.len() == e.1 && ms[i].1 == e.2
                    && matches_at(seen + chunk, ms[i].0, e.0);
            assert(ms[i].0.len() > 0);
        }
        None => {}
    }
}

/// Until a marker is found, feeding loses nothing: the bytes a feed hands
/// out, followed by what the scanner then holds back, are what it held back
/// before followed by the chunk.
pub proof fn law_feed_lossless(ms: MarkerList, strip: bool, seen: Seq<u8>, chunk: Seq<u8>)
    requires
        all_nonempty(ms),
        no_match(ms, seen),
        feed_result(ms, strip, seen, chunk).0 is None,
    ensures
        feed_result(ms, strip, seen, chunk).1 + (seen + chunk).subrange(
            released(ms, seen + chunk),
            (seen + chunk).len() as int,
        ) == seen.subrange(released(ms, seen), seen.len() as int) + chunk,
{
    lemma_feed_bounds(ms, seen, chunk);
    let s = seen + chunk;
    assert(s.subrange(released(ms, seen), released(ms, s)) + s.subrange(
        released(ms, s),
        s.len() as int,
    ) =~= seen.subrange(released(ms, seen), seen.len() as int) + chunk);
}

/// Chunking law: feeding a stream in chunks hands out exactly the stream up to
/// the earliest marker in the prefix that ends with the first chunk completing
/// a marker, and reports that marker's outcome; without any marker it hands
/// out the whole stream (after the final flush). Nothing is lost, duplicated or
/// reordered, whatever the chunk boundaries.
pub proof fn law_scan_run(ms: MarkerList, strip: bool, seen: Seq<u8>, chunks: Seq<Seq<u8>>)
    requires
        all_nonempty(ms),
        no_match(ms, seen),
    ensures
        ({
            let r = scan_run(ms, strip, seen, chunks);
            let w = scan_whole(ms, strip, stop_prefix(ms, seen, chunks));
            seen.subrange(0, released(ms, seen)) + r.0 == w.0 && r.1 == w.1
        }),
    decreases chunks.len(),
{
    lemma_overlap_max(ms, seen);
    if chunks.len() == 0 {
        lemma_earliest_none(ms, seen);
        assert(seen.subrange(0, released(ms, seen)) + seen.subrange(
            released(ms, seen),
            seen.len() as int,
        ) =~= seen);
    } else {
        let c = chunks[0];
        let s = seen + c;
        lemma_feed_bounds(ms, seen, c);
        lemma_earliest_none(ms, s);
        match earliest(ms, s) {
            Some(e) => {
                let end = if strip { e.0 } else { e.0 + e.1 };
                assert(seen.subrange(0, released(ms, seen)) + s.subrange(released(ms, seen), end)
                    =~= s.subrange(0, end));
            }
            None => {
                law_scan_run(ms, strip, s, chunks.drop_first());
                let rest = scan_run(ms, strip, s, chunks.drop_first());
                assert(seen.subrange(0, released(ms, seen)) + s.subrange(
                    released(ms, seen),
                    released(ms, s),
                ) =~= s.subrange(0, released(ms, s)));
                assert(seen.subrange(0, released(ms, seen)) + (s.subrange(
                    released(ms, seen),
                    released(ms, s),
                ) + rest.0) =~= s.subrange(0, released(ms, s)) + rest.0);
            }
        }
    }
}

proof fn lemma_first_match_prefix_stable(s: Seq<u8>, t: Seq<u8>, m: Seq<u8>)
    requires
        m.len() > 0,
        first_match(s, m) is Some,
    ensures
        first_match(s + t, m) == first_match(s, m),
{
    lemma_first_match(s, m);
    lemma_first_match(s + t, m);
    let p = first_match(s, m).unwrap();
    assert((s + t).subrange(p, p + m.len()) =~= s.subrange(p, p + m.len()));
    assert(matches_at(s + t, m, p));
    let q = first_match(s + t, m).unwrap();
    if q < p {
        assert((s + t).subrange(q, q + m.len()) =~= s.subrange(q, q + m.len()));
        assert(matches_at(s, m, q));
    }
}

proof fn lemma_concat_all_assoc(s: Seq<u8>, chunks: Seq<Seq<u8>>)
    requires
        chunks.len() > 0,
    ensures
        s + concat_all(chunks) == (s + chunks[0]) + concat_all(chunks.drop_first()),
{
    assert(s + concat_all(chunks) =~= (s + chunks[0]) + concat_all(chunks.drop_first()));
}

/// With a single marker, chunking does not matter at all: feeding a stream in
/// any chunks gives the same result as scanning the complete stream at once, so
/// a marker straddling two chunks is still found.
pub proof fn law_single_marker_chunking(
    ms: MarkerList,
    strip: bool,
    seen: Seq<u8>,
    chunks: Seq<Seq<u8>>,
)
    requires
        ms.len() == 1,
        all_nonempty(ms),
        no_match(ms, seen),
    ensures
        scan_whole(ms, strip, stop_prefix(ms, seen, chunks)) == scan_whole(
            ms,
            strip,
            seen + concat_all(chunks),
        ),
    decreases chunks.len(),
{
    if chunks.len() == 0 {
        assert(seen + concat_all(chunks) =~= seen);
    } else {
        let s = seen + chunks[0];
        lemma_concat_all_assoc(seen, chunks);
        let full = seen + concat_all(chunks);
        assert(ms[0].0.len() > 0);
        if !no_match(ms, s) {
            lemma_earliest_none(ms, s);
            reveal_with_fuel(earliest_upto, 2);
            assert(first_match(s, ms[0].0) is Some);
            lemma_first_match_prefix_stable(s, concat_all(chunks.drop_first()), ms[0].0);
            assert(earliest(ms, s) == earliest(ms, full));
            lemma_earliest_sound(ms, s);
            let e = earliest(ms, s).unwrap();
            assert(ms[0].0.len() == e.1);
            let end = if strip { e.0 } else { e.0 + e.1 };
            assert(full.subrange(0, end) =~= s.subrange(0, end));
        } else {
            law_single_marker_chunking(ms, strip, s, chunks.drop_first());
        }
    }
}

/// Result of feeding a chunk to the [`MarkerScanner`].
#[derive(Debug, PartialEq, Eq)]
pub enum Feed {
    /// Marker not found yet; these bytes may be emitted to the consumer.
    More(Vec<u8>),
    /// Marker found; these bytes are the final output (marker included or
    /// stripped per configuration) and `outcome` is what it signalled.
    Done { outcome: Outcome, bytes: Vec<u8> },
}

/// Whether a [`Feed`] is the exec form of a spec feed result.
pub open spec fn feed_is(f: Feed, r: (Option<Outcome>, Seq<u8>)) -> bool {
    match f {
        Feed::More(bytes) => r.0 is None && bytes@ == r.1,
        Feed::Done { outcome, bytes } => r.0 == Some(outcome) && bytes@ == r.1,
    }
}

/// Scanner that stops at the first marker.
pub struct MarkerScanner {
    markers: Markers,
    strip: bool,
    /// Bytes seen but not yet emitted (a possible marker prefix).
    hold: Vec<u8>,
    done: bool,
    /// Everything fed so far.
    seen: Ghost<Seq<u8>>,
}

impl MarkerScanner {
    /// The markers watched.
    pub closed spec fn marker_list(&self) -> MarkerList {
        self.markers@
    }

    /// Whether matched markers are dropped from the output.
    pub closed spec fn strips(&self) -> bool {
        self.strip
    }

    /// Everything fed so far.
    pub closed spec fn seen(&self) -> Seq<u8> {
        self.seen@
    }

    /// Whether a marker has been found.
    pub closed spec fn is_done(&self) -> bool {
        self.done
    }

    /// Internal consistency: until a marker is found, no marker occurs in the
    /// stream and exactly the overlap suffix is held back.
    pub closed spec fn wf(&self) -> bool {
        &&& all_nonempty(self.markers@)
        &&& !self.done ==> no_match(self.markers@, self.seen@)
        &&& !self.done ==> self.hold@ == self.seen@.subrange(
            released(self.markers@, self.seen@),
            self.seen@.len() as int,
        )
        &&& self.done ==> self.hold@.len() == 0
    }

    /// A scanner still looking for a marker has seen none yet, and watches
    /// only non-empty markers.
    pub proof fn lemma_live(&self)
        requires
            self.wf(),
            !self.is_done(),
        ensures
            all_nonempty(self.marker_list()),
            no_match(self.marker_list(), self.seen()),
    {
    }

    /// A fresh scanner; the marker set must not be empty.
    pub fn new(markers: Markers, strip: bool) -> (r: MarkerScanner)
        requires
            markers@.len() > 0,
        ensures
            r.wf(),
            r.marker_list() == markers@,
            r.strips() == strip,
            r.seen() == Seq::<u8>::empty(),
            !r.is_done(),
    {
        proof {
            use_type_invariant(&markers);
            lemma_earliest_none(markers@, Seq::<u8>::empty());
            assert(earliest(markers@, Seq::<u8>::empty()) is None) by {
                lemma_earliest_sound(markers@, Seq::<u8>::empty());
                if earliest(markers@, Seq::<u8>::empty()) is Some {
                    let e = earliest(markers@, Seq::<u8>::empty()).unwrap();
                    let i = choose|i: int|
                        0 <= i < markers@.len() && #[trigger] markers@[i].0.len() == e.1
                            && markers@[i].1 == e.2 && matches_at(
                            Seq::<u8>::empty(),
                            markers@[i].0,
                            e.0,
                        );
                    assert(markers@[i].0.len() > 0);
                }
            }
            lemma_overlap_max(markers@, Seq::<u8>::empty());
        }
        let r = MarkerScanner {
            markers,
            strip,
            hold: Vec::new(),
            done: false,
            seen: Ghost(Seq::empty()),
        };
        proof {
            assert(r.hold@ =~= r.seen@.subrange(released(r.markers@, r.seen@), r.seen@.len() as int));
        }
        r
    }

    /// Feed a chunk of bytes.
    pub fn feed(&mut self, chunk: &[u8]) -> (r: Feed)
        requires
            old(self).wf(),
            !old(self).is_done(),
        ensures
            final(self).wf(),
            final(self).marker_list() == old(self).marker_list(),
            final(self).strips() == old(self).strips(),
            feed_is(
                r,
                feed_result(old(self).marker_list(), old(self).strips(), old(self).seen(), chunk@),
            ),
            final(self).is_done() == (r is Done),
            final(self).seen() == old(self).seen() + chunk@,
    {
        let ghost ms = self.markers@;
        let ghost seen = self.seen@;
        let ghost s = seen + chunk@;
        let mut buf: Vec<u8> = slice_range(self.hold.as_slice(), 0, self.hold.len());
        append_slice(&mut buf, chunk);
        proof {
            lemma_chunk_shift(ms, seen, chunk@);
            lemma_feed_bounds(ms, seen, chunk@);
            lemma_earliest_sound(ms, buf@);
            assert(self.hold@.subrange(0, self.hold@.len() as int) =~= self.hold@);
            assert(buf@ == seen.subrange(released(ms, seen), seen.len() as int) + chunk@);
        }
        let blen: usize = buf.len();
        match self.markers.find(buf.as_slice()) {
            Some((pos, len, outcome)) => {
                proof {
                    let e = earliest(ms, buf@).unwrap();
                    let i = choose|i: int|
                        0 <= i < ms.len() && #[trigger] ms[i].0.len() == e.1 && ms[i].1 == e.2
                            && matches_at(buf@, ms[i].0, e.0);
                    assert(ms[i].0.len() > 0);
                    assert(pos + len <= blen);
                }
                let end: usize = pos + len;
                let out: Vec<u8> = if self.strip {
                    slice_range(buf.as_slice(), 0, pos)
                } else {
                    slice_range(buf.as_slice(), 0, end)
                };
                self.done = true;
                self.hold = Vec::new();
                self.seen = Ghost(s);
                proof {
                    let base = released(ms, seen);
                    assert(out@ =~= s.subrange(base, if self.strip { pos + base } else { end + base }));
                }
                Feed::Done { outcome, bytes: out }
            },
            None => {
                let keep: usize = self.markers.overlap(buf.as_slice());
                proof {
                    lemma_overlap_max(ms, buf@);
                    lemma_earliest_none(ms, buf@);
                }
                let emit_to: usize = buf.len() - keep;
                let emit: Vec<u8> = slice_range(buf.as_slice(), 0, emit_to);
                self.hold = slice_range(buf.as_slice(), emit_to, buf.len());
                self.seen = Ghost(s);
                proof {
                    let base = released(ms, seen);
                    assert(emit@ =~= s.subrange(base, released(ms, s)));
                    assert(self.hold@ =~= s.subrange(released(ms, s), s.len() as int));
                }
                Feed::More(emit)
            },
        }
    }

    /// Bytes still held back when the stream ends without a marker match.
    pub fn flush(self) -> (r: Vec<u8>)
        requires
            self.wf(),
        ensures
            !self.is_done() ==> r@ == self.seen().subrange(
                released(self.marker_list(), self.seen()),
                self.seen().len() as int,
            ),
            self.is_done() ==> r@.len() == 0,
    {
        self.hold
    }
}

} // verus!

verus! {

// ---- the continuous scanner ---------------------------------------------------

/// Scanning `buf` from `start` for successive earliest markers: the bytes to
/// forward (markers kept or stripped), how many markers were found, and where
/// the unmatched rest begins.
pub open spec fn rscan(ms: MarkerList, strip: bool, buf: Seq<u8>, start: nat) -> (Seq<u8>, nat, nat)
    decreases buf.len() - start,
{
    if start > buf.len() {
        (Seq::empty(), 0, start)
    } else {
        match earliest(ms, buf.subrange(start as int, buf.len() as int)) {
            Some(e) => {
                let pos = start + e.0;
                let end = pos + e.1;
                if 0 <= e.0 && 0 < e.1 && end <= buf.len() {
                    let r = rscan(ms, strip, buf, end as nat);
                    (
                        buf.subrange(start as int, pos) + (if strip {
                            Seq::empty()
                        } else {
                            buf.subrange(pos, end)
                        }) + r.0,
                        r.1 + 1,
                        r.2,
                    )
                } else {
                    (Seq::empty(), 0, start)
                }
            },
            None => (Seq::empty(), 0, start),
        }
    }
}

/// The effect of feeding `chunk` to a continuous scanner holding `hold`: the
/// bytes to forward, the number of markers found, and the new held-back bytes.
pub open spec fn response_feed(ms: MarkerList, strip: bool, hold: Seq<u8>, chunk: Seq<u8>) -> (
    Seq<u8>,
    nat,
    Seq<u8>,
) {
    let buf = hold + chunk;
    let r = rscan(ms, strip, buf, 0);
    let rest = buf.subrange(r.2 as int, buf.len() as int);
    let keep = overlap(ms, rest);
    (
        r.0 + rest.subrange(0, rest.len() - keep),
        r.1,
        rest.subrange(rest.len() - keep, rest.len() as int),
    )
}

/// Feeding `chunks` one after another: everything forwarded, the number of
/// markers found, and what is held back at the end.
pub open spec fn response_run(ms: MarkerList, strip: bool, hold: Seq<u8>, chunks: Seq<Seq<u8>>) -> (
    Seq<u8>,
    nat,
    Seq<u8>,
)
    decreases chunks.len(),
{
    if chunks.len() == 0 {
        (Seq::empty(), 0, hold)
    } else {
        let f = response_feed(ms, strip, hold, chunks[0]);
        let rest = response_run(ms, strip, f.2, chunks.drop_first());
        (f.0 + rest.0, f.1 + rest.1, rest.2)
    }
}

proof fn lemma_rscan_bounds(ms: MarkerList, strip: bool, buf: Seq<u8>, start: nat)
    requires
        start <= buf.len(),
    ensures
        start <= rscan(ms, strip, buf, start).2 <= buf.len(),
        rscan(ms, strip, buf, start).1 <= rscan(ms, strip, buf, start).2 - start,
        !strip ==> rscan(ms, strip, buf, start).0 == buf.subrange(
            start as int,
            rscan(ms, strip, buf, start).2 as int,
        ),
    decreases buf.len() - start,
{
    match earliest(ms, buf.subrange(start as int, buf.len() as int)) {
        Some(e) => {
            let pos = start + e.0;
            let end = pos + e.1;
            if 0 <= e.0 && 0 < e.1 && end <= buf.len() {
                lemma_rscan_bounds(ms, strip, buf, end as nat);
                let r = rscan(ms, strip, buf, end as nat);
                if !strip {
                    assert(buf.subrange(start as int, pos) + buf.subrange(pos, end) + r.0 =~= buf.subrange(
                        start as int,
                        r.2 as int,
                    ));
                }
            }
        },
        None => {},
    }
}

/// Byte-exactness of the continuous scanner: without stripping, the forwarded
/// bytes followed by the new held-back bytes are exactly the old held-back
/// bytes followed by the chunk.
pub proof fn law_response_feed_lossless(ms: MarkerList, hold: Seq<u8>, chunk: Seq<u8>)
    ensures
        ({
            let f = response_feed(ms, false, hold, chunk);
            f.0 + f.2 == hold + chunk
        }),
{
    let buf = hold + chunk;
    lemma_rscan_bounds(ms, false, buf, 0);
    let r = rscan(ms, false, buf, 0);
    let rest = buf.subrange(r.2 as int, buf.len() as int);
    lemma_overlap_max(ms, rest);
    let keep = overlap(ms, rest);
    assert(r.0 + rest.subrange(0, rest.len() - keep) + rest.subrange(
        rest.len() - keep,
        rest.len() as int,
    ) =~= buf);
}

/// Byte-exactness over a whole run: without stripping, everything forwarded
/// across all chunks, followed by what is still held, is exactly the input.
pub proof fn law_response_run_lossless(ms: MarkerList, hold: Seq<u8>, chunks: Seq<Seq<u8>>)
    ensures
        ({
            let r = response_run(ms, false, hold, chunks);
            r.0 + r.2 == hold + concat_all(chunks)
        }),
    decreases chunks.len(),
{
    if chunks.len() == 0 {
        assert(hold + concat_all(chunks) =~= hold);
        assert(Seq::<u8>::empty() + hold =~= hold);
    } else {
        let f = response_feed(ms, false, hold, chunks[0]);
        law_response_feed_lossless(ms, hold, chunks[0]);
        law_response_run_lossless(ms, f.2, chunks.drop_first());
        let rest = response_run(ms, false, f.2, chunks.drop_first());
        assert(f.0 + rest.0 + rest.2 =~= f.0 + (f.2 + concat_all(chunks.drop_first())));
        assert(hold + concat_all(chunks) =~= (hold + chunks[0]) + concat_all(chunks.drop_first()));
    }
}

/// Scanning a whole stream from `start` with the continuous scanner, with
/// nothing held back at the end: the bytes forwarded and the markers found.
pub open spec fn rscan_rest(ms: MarkerList, strip: bool, s: Seq<u8>, start: nat) -> (Seq<u8>, nat) {
    let r = rscan(ms, strip, s, start);
    (r.0 + s.subrange(r.2 as int, s.len() as int), r.1)
}

/// Scanning a whole stream at once with the continuous scanner.
pub open spec fn rscan_whole(ms: MarkerList, strip: bool, s: Seq<u8>) -> (Seq<u8>, nat) {
    rscan_rest(ms, strip, s, 0)
}

proof fn lemma_earliest_single(ms: MarkerList, t: Seq<u8>)
    requires
        ms.len() == 1,
    ensures
        earliest(ms, t) == (match first_match(t, ms[0].0) {
            Some(q) => Some((q, ms[0].0.len() as int, ms[0].1)),
            None => None::<(int, int, Outcome)>,
        }),
{
    reveal_with_fuel(earliest_upto, 2);
}

/// `rscan` from `start` sees only the stream from `start` on.
proof fn lemma_rscan_rest_shift(ms: MarkerList, strip: bool, s: Seq<u8>, p: nat, start: nat)
    requires
        ms.len() == 1,
        all_nonempty(ms),
        p <= start <= s.len(),
    ensures
        rscan_rest(ms, strip, s, start) == rscan_rest(
            ms,
            strip,
            s.subrange(p as int, s.len() as int),
            (start - p) as nat,
        ),
    decreases s.len() - start,
{
    let t = s.subrange(p as int, s.len() as int);
    let ts = (start - p) as nat;
    let m = ms[0].0;
    assert(m.len() > 0);
    let w = s.subrange(start as int, s.len() as int);
    assert(w =~= t.subrange(ts as int, t.len() as int));
    lemma_earliest_single(ms, w);
    lemma_first_match(w, m);
    match first_match(w, m) {
        Some(q) => {
            let pos = start + q;
            let end = pos + m.len();
            assert(matches_at(w, m, q));
            lemma_rscan_rest_shift(ms, strip, s, p, end as nat);
            lemma_rscan_bounds(ms, strip, s, end as nat);
            lemma_rscan_bounds(ms, strip, t, (end - p) as nat);
            let a = s.subrange(start as int, pos);
            assert(a =~= t.subrange(ts as int, ts + q));
            assert(s.subrange(pos, end) =~= t.subrange(ts + q, ts + q + m.len()));
            let mk = if strip { Seq::<u8>::empty() } else { s.subrange(pos, end) };
            let rs = rscan(ms, strip, s, end as nat);
            let rt = rscan(ms, strip, t, (end - p) as nat);
            assert(rscan(ms, strip, s, start) == (a + mk + rs.0, rs.1 + 1, rs.2));
            assert(rscan(ms, strip, t, ts) == (a + mk + rt.0, rt.1 + 1, rt.2));
            assert((a + mk + rs.0) + s.subrange(rs.2 as int, s.len() as int) =~= a + mk + (rs.0
                + s.subrange(rs.2 as int, s.len() as int)));
            assert((a + mk + rt.0) + t.subrange(rt.2 as int, t.len() as int) =~= a + mk + (rt.0
                + t.subrange(rt.2 as int, t.len() as int)));
        },
        None => {
            lemma_earliest_none(ms, w);
            assert(rscan(ms, strip, s, start) == (Seq::<u8>::empty(), 0nat, start));
            assert(rscan(ms, strip, t, ts) == (Seq::<u8>::empty(), 0nat, ts));
        },
    }
}

/// Where no marker starts in `s` from `start` up to `p`, scanning from
/// `start` forwards `s[start..p]` unchanged and then scans from `p`.
proof fn lemma_rscan_rest_skip(ms: MarkerList, strip: bool, s: Seq<u8>, start: nat, p: nat)
    requires
        ms.len() == 1,
        all_nonempty(ms),
        start <= p <= s.len(),
        forall|q: int| start <= q < p ==> !matches_at(s, ms[0].0, q),
    ensures
        rscan_rest(ms, strip, s, start) == ({
            let w = rscan_rest(ms, strip, s, p);
            (s.subrange(start as int, p as int) + w.0, w.1)
        }),
{
    let m = ms[0].0;
    let a = s.subrange(start as int, s.len() as int);
    let b = s.subrange(p as int, s.len() as int);
    lemma_earliest_single(ms, a);
    lemma_earliest_single(ms, b);
    lemma_first_match(a, m);
    lemma_first_match(b, m);
    assert forall|r: int| matches_at(a, m, r) <==> matches_at(b, m, r - (p - start)) by {
        if 0 <= r && r + m.len() <= a.len() {
            assert(a.subrange(r, r + m.len()) =~= s.subrange(start + r, start + r + m.len()));
        }
        if 0 <= r - (p - start) && r - (p - start) + m.len() <= b.len() {
            assert(b.subrange(r - (p - start), r - (p - start) + m.len()) =~= s.subrange(
                start + r,
                start + r + m.len(),
            ));
        }
        if matches_at(a, m, r) && r < p - start {
            assert(matches_at(s, m, start + r));
        }
    }
    lemma_first_match_eq_shift(a, b, m, (p - start) as int);
    match first_match(b, m) {
        Some(q) => {
            let e0 = q + (p - start);
            let end = start + e0 + m.len();
            assert(end == p + q + m.len());
            lemma_rscan_bounds(ms, strip, s, end as nat);
            assert(s.subrange(start as int, start + e0) =~= s.subrange(start as int, p as int)
                + s.subrange(p as int, p + q));
        },
        None => {
            assert(s.subrange(start as int, s.len() as int) =~= s.subrange(start as int, p as int)
                + s.subrange(p as int, s.len() as int));
        },
    }
}

/// The markers found in a prefix `buf` of `s` are found in `s` too, and the
/// scan of `s` goes on from where the scan of `buf` stopped.
#[verifier::spinoff_prover]
#[verifier::rlimit(40)]
proof fn lemma_rscan_rest_prefix(ms: MarkerList, strip: bool, buf: Seq<u8>, d: Seq<u8>, start: nat)
    requires
        ms.len() == 1,
        all_nonempty(ms),
        start <= buf.len(),
    ensures
        rscan_rest(ms, strip, buf + d, start) == ({
            let r = rscan(ms, strip, buf, start);
            let w = rscan_rest(ms, strip, buf + d, r.2);
            (r.0 + w.0, r.1 + w.1)
        }),
        no_match(ms, buf.subrange(rscan(ms, strip, buf, start).2 as int, buf.len() as int)),
    decreases buf.len() - start,
{
    let s = buf + d;
    let m = ms[0].0;
    assert(m.len() > 0);
    let a = buf.subrange(start as int, buf.len() as int);
    lemma_earliest_single(ms, a);
    lemma_first_match(a, m);
    match first_match(a, m) {
        Some(q) => {
            assert(s.subrange(start as int, s.len() as int) =~= a + d);
            lemma_first_match_prefix_stable(a, d, m);
            lemma_earliest_single(ms, a + d);
            assert(matches_at(a, m, q));
            let end = start + q + m.len();
            lemma_rscan_bounds(ms, strip, buf, end as nat);
            lemma_rscan_rest_prefix(ms, strip, buf, d, end as nat);
            assert(buf.subrange(start as int, start + q) =~= s.subrange(start as int, start + q));
            assert(buf.subrange(start + q, end as int) =~= s.subrange(start + q, end as int));
            let rb = rscan(ms, strip, buf, end as nat);
            let rs = rscan(ms, strip, s, end as nat);
            lemma_rscan_bounds(ms, strip, s, end as nat);
            let w = rscan_rest(ms, strip, s, rb.2);
            let mk = if strip { Seq::<u8>::empty() } else { buf.subrange(start + q, end as int) };
            assert(rscan(ms, strip, buf, start) == (buf.subrange(start as int, start + q) + mk + rb.0, rb.1 + 1, rb.2));
            assert(rscan(ms, strip, s, start) == (buf.subrange(start as int, start + q) + mk + rs.0, rs.1 + 1, rs.2));
            assert(rs.0 + s.subrange(rs.2 as int, s.len() as int) == rb.0 + w.0);
            let am = buf.subrange(start as int, start + q) + mk;
            let tail = s.subrange(rs.2 as int, s.len() as int);
            assert((am + rs.0) + tail == am + (rs.0 + tail)) by {
                assert((am + rs.0) + tail =~= am + (rs.0 + tail));
            }
            assert(am + (rb.0 + w.0) == (am + rb.0) + w.0) by {
                assert(am + (rb.0 + w.0) =~= (am + rb.0) + w.0);
            }
        },
        None => {
            lemma_earliest_none(ms, a);
            assert(rscan(ms, strip, buf, start) == (Seq::<u8>::empty(), 0nat, start));
            assert(Seq::<u8>::empty() + rscan_rest(ms, strip, s, start).0 =~= rscan_rest(
                ms,
                strip,
                s,
                start,
            ).0);
        },
    }
}

/// What one feed leaves held back is shorter than the marker, so it holds no
/// complete marker.
proof fn lemma_response_hold_clean(ms: MarkerList, strip: bool, hold: Seq<u8>, chunk: Seq<u8>)
    requires
        ms.len() == 1,
        all_nonempty(ms),
    ensures
        no_match(ms, response_feed(ms, strip, hold, chunk).2),
{
    let buf = hold + chunk;
    let r = rscan(ms, strip, buf, 0);
    lemma_rscan_bounds(ms, strip, buf, 0);
    let rest = buf.subrange(r.2 as int, buf.len() as int);
    lemma_overlap_upto(ms, rest, 1);
    lemma_overlap_one(rest, ms[0].0);
    let kept = response_feed(ms, strip, hold, chunk).2;
    assert(kept.len() == overlap(ms, rest));
    assert(kept.len() < ms[0].0.len());
    assert forall|i: int, p: int| 0 <= i < ms.len() implies !#[trigger] matches_at(kept, ms[i].0, p) by {
        assert(i == 0);
    }
}

/// One feed, then scanning the rest of the stream at once, is the same as
/// scanning the whole stream at once.
proof fn lemma_response_feed_step(ms: MarkerList, strip: bool, hold: Seq<u8>, chunk: Seq<u8>, d: Seq<u8>)
    requires
        ms.len() == 1,
        all_nonempty(ms),
    ensures
        ({
            let f = response_feed(ms, strip, hold, chunk);
            let w = rscan_whole(ms, strip, f.2 + d);
            rscan_whole(ms, strip, hold + chunk + d) == (f.0 + w.0, f.1 + w.1)
        }),
{
    let m = ms[0].0;
    assert(m.len() > 0);
    let buf = hold + chunk;
    let s = buf + d;
    let r = rscan(ms, strip, buf, 0);
    lemma_rscan_bounds(ms, strip, buf, 0);
    let p = r.2;
    let rest = buf.subrange(p as int, buf.len() as int);
    lemma_overlap_max(ms, rest);
    let keep = overlap(ms, rest);
    let q = (buf.len() - keep) as nat;
    let f = response_feed(ms, strip, hold, chunk);
    lemma_rscan_rest_prefix(ms, strip, buf, d, 0);
    assert forall|k: int| p <= k < q implies !matches_at(s, m, k) by {
        if matches_at(s, m, k) {
            if k + m.len() <= buf.len() {
                assert(rest.subrange(k - p, k - p + m.len()) =~= s.subrange(k, k + m.len()));
                assert(matches_at(rest, ms[0].0, k - p));
            } else {
                let l = buf.len() - k;
                assert(rest.subrange(rest.len() - l, rest.len() as int) =~= m.subrange(0, l)) by {
                    assert forall|j: int| 0 <= j < l implies #[trigger] rest.subrange(
                        rest.len() - l,
                        rest.len() as int,
                    )[j] == m.subrange(0, l)[j] by {
                        assert(s.subrange(k, k + m.len())[j] == m[j]);
                    }
                }
                assert(suffix_is_prefix(rest, ms[0].0, l));
            }
        }
    }
    lemma_rscan_rest_skip(ms, strip, s, p, q);
    lemma_rscan_rest_shift(ms, strip, s, q, q);
    assert(s.subrange(q as int, s.len() as int) =~= f.2 + d);
    assert(s.subrange(p as int, q as int) =~= rest.subrange(0, rest.len() - keep));
    let x = rscan_rest(ms, strip, s, p);
    let w = rscan_whole(ms, strip, f.2 + d);
    assert(r.0 + x.0 =~= f.0 + w.0);
}

/// With a single marker, chunking does not matter to the continuous scanner:
/// feeding a stream in any chunks forwards exactly the bytes, and counts exactly
/// the markers, that scanning the complete stream at once does, once what is
/// still held at the end is flushed. The markers counted are the successive
/// leftmost non-overlapping occurrences, whether or not they are stripped.
pub proof fn law_response_single_marker_chunking(
    ms: MarkerList,
    strip: bool,
    hold: Seq<u8>,
    chunks: Seq<Seq<u8>>,
)
    requires
        ms.len() == 1,
        all_nonempty(ms),
        no_match(ms, hold),
    ensures
        ({
            let r = response_run(ms, strip, hold, chunks);
            (r.0 + r.2, r.1) == rscan_whole(ms, strip, hold + concat_all(chunks))
        }),
    decreases chunks.len(),
{
    if chunks.len() == 0 {
        assert(hold + concat_all(chunks) =~= hold);
        lemma_earliest_none(ms, hold);
        assert(hold.subrange(0, hold.len() as int) =~= hold);
        assert(Seq::<u8>::empty() + hold =~= hold);
    } else {
        let f = response_feed(ms, strip, hold, chunks[0]);
        let tail = concat_all(chunks.drop_first());
        lemma_concat_all_assoc(hold, chunks);
        lemma_response_feed_step(ms, strip, hold, chunks[0], tail);
        lemma_response_hold_clean(ms, strip, hold, chunks[0]);
        law_response_single_marker_chunking(ms, strip, f.2, chunks.drop_first());
        let rest = response_run(ms, strip, f.2, chunks.drop_first());
        assert(f.0 + rest.0 + rest.2 =~= f.0 + (rest.0 + rest.2));
    }
}

/// Like [`MarkerScanner`] but continuous: it never stops, reporting how many
/// end-of-response markers it has seen so far. Used server-side to track when a
/// REPL has finished a response without consuming bytes after the marker. The
/// server treats every marker the same (any outcome ends a response), so it only
/// counts matches.
pub struct ResponseScanner {
    markers: Markers,
    strip: bool,
    hold: Vec<u8>,
}

impl ResponseScanner {
    /// The markers watched.
    pub closed spec fn marker_list(&self) -> MarkerList {
        self.markers@
    }

    /// Whether matched markers are dropped from the output.
    pub closed spec fn strips(&self) -> bool {
        self.strip
    }

    /// The bytes currently held back (a possible marker prefix).
    pub closed spec fn held(&self) -> Seq<u8> {
        self.hold@
    }

    /// An empty marker set disables detection (all bytes pass through).
    pub fn new(markers: Markers, strip: bool) -> (r: ResponseScanner)
        ensures
            r.marker_list() == markers@,
            r.strips() == strip,
            r.held() == Seq::<u8>::empty(),
    {
        ResponseScanner { markers, strip, hold: Vec::new() }
    }

    /// Feed a chunk. Returns the bytes to forward (with markers stripped if
    /// configured) and the number of markers found in this chunk.
    pub fn feed(&mut self, chunk: &[u8]) -> (r: (Vec<u8>, usize))
        requires
            old(self).marker_list().len() == 0 ==> old(self).held().len() == 0,
        ensures
            final(self).marker_list() == old(self).marker_list(),
            final(self).strips() == old(self).strips(),
            final(self).marker_list().len() == 0 ==> final(self).held().len() == 0,
            (r.0@, r.1 as nat, final(self).held()) == response_feed(
                old(self).marker_list(),
                old(self).strips(),
                old(self).held(),
                chunk@,
            ),
    {
        let ghost ms = self.markers@;
        proof {
            use_type_invariant(&self.markers);
        }
        if self.markers.is_empty() {
            let out = slice_range(chunk, 0, chunk.len());
            proof {
                let buf = self.hold@ + chunk@;
                assert(buf =~= chunk@);
                assert(earliest(ms, buf) is None);
                assert(overlap(ms, buf.subrange(0, buf.len() as int)) == 0);
                assert(chunk@.subrange(0, chunk@.len() as int) =~= chunk@);
                let rest = buf.subrange(0, buf.len() as int);
                assert(rest.subrange(0, rest.len() as int) =~= chunk@);
                assert(rest.subrange(rest.len() as int, rest.len() as int) =~= Seq::<u8>::empty());
            }
            return (out, 0);
        }
        let mut buf: Vec<u8> = slice_range(self.hold.as_slice(), 0, self.hold.len());
        append_slice(&mut buf, chunk);
        proof {
            assert(self.hold@.subrange(0, self.hold@.len() as int) =~= self.hold@);
        }
        let blen: usize = buf.len();
        let mut emit: Vec<u8> = Vec::new();
        let mut found: usize = 0;
        let mut start: usize = 0;
        loop
            invariant
                blen == buf@.len(),
                start <= blen,
                found <= start,
                all_nonempty(ms),
                ms == self.markers@,
                rscan(ms, self.strip, buf@, 0) == (
                    emit@ + rscan(ms, self.strip, buf@, start as nat).0,
                    (found + rscan(ms, self.strip, buf@, start as nat).1) as nat,
                    rscan(ms, self.strip, buf@, start as nat).2,
                ),
            ensures
                start <= blen,
                rscan(ms, self.strip, buf@, 0) == (emit@, found as nat, start as nat),
            decreases blen - start,
        {
            let rest: Vec<u8> = slice_range(buf.as_slice(), start, blen);
            match self.markers.find(rest.as_slice()) {
                Some((rel, len, _outcome)) => {
                    proof {
                        lemma_earliest_sound(ms, rest@);
                        let e = earliest(ms, rest@).unwrap();
                        let i = choose|i: int|
                            0 <= i < ms.len() && #[trigger] ms[i].0.len() == e.1 && ms[i].1 == e.2
                                && matches_at(rest@, ms[i].0, e.0);
                        assert(ms[i].0.len() > 0);
                        assert(start + rel + len <= blen);
                    }
                    let pos: usize = start + rel;
                    let end: usize = pos + len;
                    let ghost old_emit = emit@;
                    let piece = slice_range(buf.as_slice(), start, pos);
                    append_slice(&mut emit, piece.as_slice());
                    if !self.strip {
                        let m = slice_range(buf.as_slice(), pos, end);
                        append_slice(&mut emit, m.as_slice());
                    }
                    proof {
                        let r = rscan(ms, self.strip, buf@, end as nat);
                        assert(rscan(ms, self.strip, buf@, start as nat) == (
                            buf@.subrange(start as int, pos as int) + (if self.strip {
                                Seq::empty()
                            } else {
                                buf@.subrange(pos as int, end as int)
                            }) + r.0,
                            r.1 + 1,
                            r.2,
                        ));
                        assert(old_emit + (buf@.subrange(start as int, pos as int) + (if self.strip {
                            Seq::empty()
                        } else {
                            buf@.subrange(pos as int, end as int)
                        }) + r.0) =~= emit@ + r.0);
                    }
                    found = found + 1;
                    start = end;
                },
                None => {
                    proof {
                        assert(rscan(ms, self.strip, buf@, start as nat) == (
                            Seq::<u8>::empty(),
                            0nat,
                            start as nat,
                        ));
                        assert(emit@ + Seq::<u8>::empty() =~= emit@);
                    }
                    break ;
                },
            }
        }
        let rest: Vec<u8> = slice_range(buf.as_slice(), start, blen);
        let keep: usize = self.markers.overlap(rest.as_slice());
        proof {
            lemma_overlap_max(ms, rest@);
        }
        let emit_to: usize = rest.len() - keep;
        let tail = slice_range(rest.as_slice(), 0, emit_to);
        append_slice(&mut emit, tail.as_slice());
        self.hold = slice_range(rest.as_slice(), emit_to, rest.len());
        (emit, found)
    }

    /// Bytes still held back when the stream ends.
    pub fn flush(self) -> (r: Vec<u8>)
        ensures
            r@ == self.held(),
    {
        self.hold
    }
}

} // verus!
