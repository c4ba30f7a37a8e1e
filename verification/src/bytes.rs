//! Small byte-sequence helpers with exact contracts, shared by the scanner,
//! the protocol codec and the command line parser.

use vstd::prelude::*;

verus! {

/// Copy `s[from..to]` into a fresh vector.
pub fn slice_range(s: &[u8], from: usize, to: usize) -> (r: Vec<u8>)
    requires
        from <= to <= s@.len(),
    ensures
        r@ == s@.subrange(from as int, to as int),
{
    let mut r: Vec<u8> = Vec::new();
    let mut i: usize = from;
    while i < to
        invariant
            from <= i <= to <= s@.len(),
            r@ == s@.subrange(from as int, i as int),
        decreases to - i,
    {
        r.push(s[i]);
        i = i + 1;
        assert(r@ =~= s@.subrange(from as int, i as int));
    }
    r
}

/// Append all of `src` to `dst`.
pub fn append_slice(dst: &mut Vec<u8>, src: &[u8])
    ensures
        final(dst)@ == old(dst)@ + src@,
{
    let ghost start = dst@;
    let mut i: usize = 0;
    while i < src.len()
        invariant
            i <= src@.len(),
            dst@ == start + src@.subrange(0, i as int),
        decreases src@.len() - i,
    {
        dst.push(src[i]);
        i = i + 1;
        assert(dst@ =~= start + src@.subrange(0, i as int));
    }
    assert(src@.subrange(0, src@.len() as int) =~= src@);
}

/// Whether `s[at..at + pat.len()]` equals `pat`.
pub fn bytes_equal_at(s: &[u8], at: usize, pat: &[u8]) -> (r: bool)
    requires
        at as int + pat@.len() <= s@.len(),
    ensures
        r == (s@.subrange(at as int, at + pat@.len()) == pat@),
{
    let n: usize = s.len();
    let mut i: usize = 0;
    while i < pat.len()
        invariant
            i <= pat@.len(),
            n == s@.len(),
            at as int + pat@.len() <= s@.len(),
            forall|k: int| 0 <= k < i ==> s@[at + k] == pat@[k],
        decreases pat@.len() - i,
    {
        if s[at + i] != pat[i] {
            assert(s@.subrange(at as int, at + pat@.len())[i as int] != pat@[i as int]);
            return false;
        }
        i = i + 1;
    }
    assert(s@.subrange(at as int, at + pat@.len()) =~= pat@);
    true
}

/// Whether two byte sequences are equal.
pub fn bytes_equal(a: &[u8], b: &[u8]) -> (r: bool)
    ensures
        r == (a@ == b@),
{
    if a.len() != b.len() {
        return false;
    }
    let r = bytes_equal_at(a, 0, b);
    assert(a@.subrange(0, b@.len() as int) =~= a@);
    r
}

/// Whether `s` starts with `pre`.
pub fn starts_with(s: &[u8], pre: &[u8]) -> (r: bool)
    ensures
        r == (pre@.len() <= s@.len() && s@.subrange(0, pre@.len() as int) == pre@),
{
    if pre.len() > s.len() {
        return false;
    }
    bytes_equal_at(s, 0, pre)
}

/// Whether `s` ends with `suf`.
pub fn ends_with(s: &[u8], suf: &[u8]) -> (r: bool)
    ensures
        r == (suf@.len() <= s@.len() && s@.subrange(s@.len() - suf@.len(), s@.len() as int)
            == suf@),
{
    if suf.len() > s.len() {
        return false;
    }
    bytes_equal_at(s, s.len() - suf.len(), suf)
}


// ---- decimal numbers ------------------------------------------------------

/// An ASCII decimal digit.
pub open spec fn is_digit(b: u8) -> bool {
    48 <= b <= 57
}

/// Every byte is an ASCII decimal digit.
pub open spec fn all_digits(d: Seq<u8>) -> bool {
    forall|i: int| 0 <= i < d.len() ==> is_digit(#[trigger] d[i])
}

/// The value of a string of decimal digits.
pub open spec fn digits_value(d: Seq<u8>) -> nat
    decreases d.len(),
{
    if d.len() == 0 {
        0
    } else {
        digits_value(d.drop_last()) * 10 + (d.last() - 48) as nat
    }
}

/// What Rust's `FromStr` for an unsigned integer accepts: an optional `+`
/// followed by one or more ASCII digits. The caller bounds the value by the
/// target type.
pub open spec fn parse_unsigned(b: Seq<u8>) -> Option<nat> {
    let d = if b.len() > 0 && b[0] == 43 { b.drop_first() } else { b };
    if d.len() > 0 && all_digits(d) {
        Some(digits_value(d))
    } else {
        None
    }
}

/// `parse_unsigned`, limited to values up to `max` (larger values are an
/// overflow error, as in Rust's `FromStr`).
pub open spec fn parse_bounded(b: Seq<u8>, max: nat) -> Option<nat> {
    match parse_unsigned(b) {
        Some(v) => if v <= max { Some(v) } else { None },
        None => None,
    }
}

/// Parse an unsigned decimal number of at most `max`.
pub fn parse_unsigned_upto(b: &[u8], max: u64) -> (r: Option<u64>)
    ensures
        match r {
            Some(v) => parse_bounded(b@, max as nat) == Some(v as nat),
            None => parse_bounded(b@, max as nat) is None,
        },
{
    let n: usize = b.len();
    let start: usize = if n > 0 && b[0] == 43 { 1 } else { 0 };
    let ghost d = if b@.len() > 0 && b@[0] == 43 { b@.drop_first() } else { b@ };
    assert(d =~= b@.subrange(start as int, n as int));
    if start == n {
        return None;
    }
    let mut acc: u64 = 0;
    let mut over: bool = false;
    let mut i: usize = start;
    while i < n
        invariant
            start <= i <= n,
            start < n,
            n == b@.len(),
            d == b@.subrange(start as int, n as int),
            d == (if b@.len() > 0 && b@[0] == 43 { b@.drop_first() } else { b@ }),
            all_digits(b@.subrange(start as int, i as int)),
            !over ==> acc as nat == digits_value(b@.subrange(start as int, i as int)),
            !over ==> acc <= max,
            over ==> digits_value(b@.subrange(start as int, i as int)) > max,
        decreases n - i,
    {
        let c = b[i];
        if c < 48 || c > 57 {
            assert(b@.subrange(start as int, n as int)[i - start] == c);
            assert(!is_digit(d[i - start]));
            assert(!all_digits(d));
            assert(parse_unsigned(b@) is None);
            return None;
        }
        let ghost prev = b@.subrange(start as int, i as int);
        let ghost next = b@.subrange(start as int, i + 1);
        assert(next.drop_last() =~= prev);
        assert(next.last() == c);
        if !over {
            let dgt: u64 = (c - 48) as u64;
            if dgt > max || acc > (max - dgt) / 10 {
                over = true;
                assert(acc * 10 + dgt > max) by (nonlinear_arith)
                    requires
                        dgt > max || acc > (max - dgt) / 10,
                        dgt <= 9,
                ;
            } else {
                assert(acc * 10 + dgt <= max) by (nonlinear_arith)
                    requires
                        acc <= (max - dgt) / 10,
                        dgt <= 9,
                ;
                acc = acc * 10 + dgt;
            }
        } else {
            assert(digits_value(next) >= digits_value(prev)) by (nonlinear_arith)
                requires
                    digits_value(next) == digits_value(prev) * 10 + (c - 48) as nat,
            ;
        }
        i = i + 1;
        assert(all_digits(b@.subrange(start as int, i as int))) by {
            assert forall|k: int| 0 <= k < next.len() implies is_digit(#[trigger] next[k]) by {
                if k < prev.len() {
                    assert(next[k] == prev[k]);
                }
            }
        }
    }
    assert(b@.subrange(start as int, n as int) == d);
    if over {
        None
    } else {
        Some(acc)
    }
}

/// Decimal digits of `n` as ASCII bytes, without leading zeros.
pub open spec fn dec_bytes(n: nat) -> Seq<u8>
    decreases n,
{
    if n < 10 {
        seq![(n + 48) as u8]
    } else {
        dec_bytes(n / 10) + seq![((n % 10) + 48) as u8]
    }
}

/// `s` padded on the left with ASCII `'0'` to at least `width` bytes.
pub open spec fn zero_pad_bytes(s: Seq<u8>, width: nat) -> Seq<u8> {
    if s.len() >= width {
        s
    } else {
        Seq::new((width - s.len()) as nat, |i: int| 48u8) + s
    }
}

/// The decimal digits of a number are digits and spell that number.
pub proof fn lemma_dec_bytes(n: nat)
    ensures
        all_digits(dec_bytes(n)),
        digits_value(dec_bytes(n)) == n,
        dec_bytes(n).len() >= 1,
        n < 10 ==> dec_bytes(n).len() == 1,
        n < 100 ==> dec_bytes(n).len() <= 2,
        n < 1000 ==> dec_bytes(n).len() <= 3,
        n < 10000 ==> dec_bytes(n).len() <= 4,
        n < 100000 ==> dec_bytes(n).len() <= 5,
    decreases n,
{
    if n < 10 {
        let d = dec_bytes(n);
        assert(((n + 48) as u8) == n + 48);
        assert(d.drop_last() =~= Seq::<u8>::empty());
        assert(digits_value(d) == digits_value(d.drop_last()) * 10 + (d.last() - 48) as nat);
    }
    if n >= 10 {
        lemma_dec_bytes(n / 10);
        let d = dec_bytes(n);
        assert(d.drop_last() =~= dec_bytes(n / 10));
        assert(d.last() == ((n % 10) + 48) as u8);
        assert(((n % 10) + 48) as u8 == (n % 10) + 48);
        assert((n / 10) * 10 + n % 10 == n);
        assert(digits_value(d) == digits_value(d.drop_last()) * 10 + (d.last() - 48) as nat);
        assert(digits_value(d.drop_last()) == n / 10);
        assert((d.last() - 48) as nat == n % 10);
        assert(digits_value(d) == (n / 10) * 10 + n % 10);
        assert(all_digits(d)) by {
            assert forall|i: int| 0 <= i < d.len() implies is_digit(#[trigger] d[i]) by {
                if i < d.len() - 1 {
                    assert(d[i] == dec_bytes(n / 10)[i]);
                }
            }
        }
    }
}

/// Leading zeros do not change the value of a digit string.
pub proof fn lemma_leading_zeros(z: nat, d: Seq<u8>)
    ensures
        digits_value(Seq::new(z, |i: int| 48u8) + d) == digits_value(d),
        all_digits(d) ==> all_digits(Seq::new(z, |i: int| 48u8) + d),
    decreases d.len(),
{
    let zs = Seq::new(z, |i: int| 48u8);
    if d.len() == 0 {
        assert(zs + d =~= zs);
        lemma_zeros_value(z);
    } else {
        lemma_leading_zeros(z, d.drop_last());
        assert((zs + d).drop_last() =~= zs + d.drop_last());
    }
    if all_digits(d) {
        assert forall|i: int| 0 <= i < (zs + d).len() implies is_digit(#[trigger] (zs + d)[i]) by {
            if i >= z {
                assert((zs + d)[i] == d[i - z]);
            }
        }
    }
}

proof fn lemma_zeros_value(z: nat)
    ensures
        digits_value(Seq::new(z, |i: int| 48u8)) == 0,
    decreases z,
{
    if z > 0 {
        lemma_zeros_value((z - 1) as nat);
        assert(Seq::new(z, |i: int| 48u8).drop_last() =~= Seq::new((z - 1) as nat, |i: int| 48u8));
    }
}

/// A zero-padded decimal number parses back to itself.
pub proof fn lemma_padded_parses(n: nat, width: nat)
    ensures
        parse_unsigned(zero_pad_bytes(dec_bytes(n), width)) == Some(n),
        all_digits(zero_pad_bytes(dec_bytes(n), width)),
{
    lemma_dec_bytes(n);
    let d = dec_bytes(n);
    if d.len() < width {
        lemma_leading_zeros((width - d.len()) as nat, d);
    }
}

/// Append the decimal digits of `n`, zero-padded to `width`, to `out`.
pub fn push_padded_decimal(out: &mut Vec<u8>, n: u64, width: usize)
    ensures
        final(out)@ == old(out)@ + zero_pad_bytes(dec_bytes(n as nat), width as nat),
{
    let digits = decimal_bytes(n);
    if digits.len() < width {
        let mut i: usize = 0;
        let ghost start = out@;
        while i < width - digits.len()
            invariant
                digits.len() < width,
                i <= width - digits.len(),
                out@ == start + Seq::new(i as nat, |j: int| 48u8),
            decreases width - digits.len() - i,
        {
            out.push(48u8);
            i = i + 1;
            assert(out@ =~= start + Seq::new(i as nat, |j: int| 48u8));
        }
        append_slice(out, digits.as_slice());
        assert(out@ =~= start + zero_pad_bytes(dec_bytes(n as nat), width as nat));
    } else {
        append_slice(out, digits.as_slice());
    }
}

/// Decimal digits of `n`.
pub fn decimal_bytes(n: u64) -> (r: Vec<u8>)
    ensures
        r@ == dec_bytes(n as nat),
    decreases n,
{
    if n < 10 {
        let mut r: Vec<u8> = Vec::new();
        r.push((n as u8) + 48);
        r
    } else {
        let mut r = decimal_bytes(n / 10);
        r.push(((n % 10) as u8) + 48);
        r
    }
}


// ---- searching ------------------------------------------------------------

/// First index at or after `p` where byte `b` occurs in `s`.
pub open spec fn index_of_from(s: Seq<u8>, b: u8, p: nat) -> Option<nat>
    decreases s.len() - p,
{
    if p >= s.len() {
        None
    } else if s[p as int] == b {
        Some(p)
    } else {
        index_of_from(s, b, p + 1)
    }
}

/// First index of byte `b` in `s`.
pub open spec fn index_of(s: Seq<u8>, b: u8) -> Option<nat> {
    index_of_from(s, b, 0)
}

pub proof fn lemma_index_of_from(s: Seq<u8>, b: u8, p: nat)
    ensures
        match index_of_from(s, b, p) {
            Some(i) => p <= i < s.len() && s[i as int] == b && forall|j: int|
                p <= j < i ==> s[j] != b,
            None => forall|j: int| p <= j < s.len() ==> s[j] != b,
        },
    decreases s.len() - p,
{
    if p < s.len() && s[p as int] != b {
        lemma_index_of_from(s, b, p + 1);
    }
}

/// First index at or after `from` where byte `b` occurs in `s`.
pub fn find_byte(s: &[u8], b: u8, from: usize) -> (r: Option<usize>)
    requires
        from <= s@.len(),
    ensures
        match r {
            Some(i) => index_of_from(s@, b, from as nat) == Some(i as nat),
            None => index_of_from(s@, b, from as nat) is None,
        },
{
    let n: usize = s.len();
    let mut p: usize = from;
    while p < n
        invariant
            from <= p <= n,
            n == s@.len(),
            index_of_from(s@, b, from as nat) == index_of_from(s@, b, p as nat),
        decreases n - p,
    {
        if s[p] == b {
            return Some(p);
        }
        p = p + 1;
    }
    None
}

} // verus!
