//! Byte-sequence helpers shared by the codec and the router: ASCII
//! whitespace trimming, searching, slicing and equality over `Vec<u8>`.

use vstd::prelude::*;

verus! {

/// ASCII whitespace, the set recognized when header names and values are
/// trimmed and when the status line is split into tokens.
pub open spec fn is_ascii_ws(b: u8) -> bool {
    b == 32 || b == 9 || b == 10 || b == 11 || b == 12 || b == 13
}

/// `s` without its leading ASCII whitespace.
pub open spec fn trim_left(s: Seq<u8>) -> Seq<u8>
    decreases s.len(),
{
    if s.len() > 0 && is_ascii_ws(s[0]) {
        trim_left(s.skip(1))
    } else {
        s
    }
}

/// `s` without its trailing ASCII whitespace.
pub open spec fn trim_right(s: Seq<u8>) -> Seq<u8>
    decreases s.len(),
{
    if s.len() > 0 && is_ascii_ws(s[s.len() - 1]) {
        trim_right(s.take(s.len() - 1))
    } else {
        s
    }
}

/// `s` without leading and trailing ASCII whitespace.
pub open spec fn trim(s: Seq<u8>) -> Seq<u8> {
    trim_right(trim_left(s))
}

/// The position of the first occurrence of `t` in `s`, or `s.len()` if `t`
/// does not occur.
pub open spec fn first_index_of(s: Seq<u8>, t: u8) -> int
    decreases s.len(),
{
    if s.len() == 0 {
        0
    } else if s[0] == t {
        0
    } else {
        1 + first_index_of(s.skip(1), t)
    }
}

pub proof fn lemma_first_index_of_unique(s: Seq<u8>, t: u8, i: int)
    requires
        0 <= i <= s.len(),
        forall|j: int| 0 <= j < i ==> s[j] != t,
        i < s.len() ==> s[i] == t,
    ensures
        first_index_of(s, t) == i,
    decreases s.len(),
{
    if s.len() == 0 {
    } else if s[0] == t {
        assert(i == 0);
    } else {
        assert(i > 0);
        assert forall|j: int| 0 <= j < i - 1 implies s.skip(1)[j] != t by {
            assert(s.skip(1)[j] == s[j + 1]);
        }
        if i < s.len() {
            assert(s.skip(1)[i - 1] == s[i]);
        }
        lemma_first_index_of_unique(s.skip(1), t, i - 1);
    }
}

/// The first position `>= from` holding `target`, or `v.len()` if none does.
pub fn find_byte(v: &Vec<u8>, from: usize, target: u8) -> (r: usize)
    requires
        from <= v.len(),
    ensures
        from <= r <= v.len(),
        forall|j: int| from <= j < r ==> v@[j] != target,
        r < v.len() ==> v@[r as int] == target,
{
    let mut i: usize = from;
    while i < v.len()
        invariant
            from <= i <= v.len(),
            forall|j: int| from <= j < i ==> v@[j] != target,
        decreases v.len() - i,
    {
        if v[i] == target {
            return i;
        }
        i = i + 1;
    }
    i
}

/// A fresh copy of `v@.subrange(i as int, j as int)`.
pub fn subvec(v: &Vec<u8>, i: usize, j: usize) -> (r: Vec<u8>)
    requires
        i <= j <= v.len(),
    ensures
        r@ == v@.subrange(i as int, j as int),
{
    vstd::slice::slice_to_vec(vstd::slice::slice_subrange(v.as_slice(), i, j))
}

/// Byte-wise equality of two vectors, at spec level equality of their views.
pub fn vec_u8_eq(a: &Vec<u8>, b: &Vec<u8>) -> (r: bool)
    ensures
        r == (a@ == b@),
{
    if a.len() != b.len() {
        return false;
    }
    let mut i: usize = 0;
    while i < a.len()
        invariant
            a.len() == b.len(),
            i <= a.len(),
            forall|j: int| 0 <= j < i ==> a@[j] == b@[j],
        decreases a.len() - i,
    {
        if a[i] != b[i] {
            return false;
        }
        i = i + 1;
    }
    proof {
        assert(a@ =~= b@);
    }
    true
}

/// A fresh copy of `v`'s bytes.
pub fn clone_bytes(v: &Vec<u8>) -> (r: Vec<u8>)
    ensures
        r@ == v@,
{
    vstd::slice::slice_to_vec(v.as_slice())
}

pub proof fn lemma_trim_left_is_skip(s: Seq<u8>, i: int)
    requires
        0 <= i <= s.len(),
        forall|j: int| 0 <= j < i ==> is_ascii_ws(s[j]),
        i < s.len() ==> !is_ascii_ws(s[i]),
    ensures
        trim_left(s) == s.skip(i),
    decreases i,
{
    if i == 0 {
        if s.len() > 0 {
            assert(!is_ascii_ws(s[0]));
        }
        assert(s.skip(0) =~= s);
    } else {
        assert(is_ascii_ws(s[0]));
        assert forall|j: int| 0 <= j < i - 1 implies is_ascii_ws(s.skip(1)[j]) by {
            assert(s.skip(1)[j] == s[j + 1]);
        }
        if i - 1 < s.skip(1).len() {
            assert(s.skip(1)[i - 1] == s[i]);
        }
        lemma_trim_left_is_skip(s.skip(1), i - 1);
        assert(s.skip(1).skip(i - 1) =~= s.skip(i));
    }
}

pub proof fn lemma_trim_right_is_take(s: Seq<u8>, h: int)
    requires
        0 <= h <= s.len(),
        forall|j: int| h <= j < s.len() ==> is_ascii_ws(s[j]),
        h > 0 ==> !is_ascii_ws(s[h - 1]),
    ensures
        trim_right(s) == s.take(h),
    decreases s.len(),
{
    if h == s.len() {
        if s.len() == 0 || !is_ascii_ws(s[s.len() - 1]) {
            assert(s.take(h) =~= s);
        } else {
            assert(h > 0 && !is_ascii_ws(s[h - 1]));
            assert(false);
        }
    } else {
        assert(is_ascii_ws(s[s.len() - 1]));
        let s1 = s.take(s.len() - 1);
        assert forall|j: int| h <= j < s1.len() implies is_ascii_ws(s1[j]) by {
            assert(s1[j] == s[j]);
        }
        if h > 0 {
            assert(s1[h - 1] == s[h - 1]);
        }
        lemma_trim_right_is_take(s1, h);
        assert(s1.take(h) =~= s.take(h));
    }
}

/// `v` with leading and trailing ASCII whitespace removed.
pub fn trim_bytes(v: &Vec<u8>) -> (r: Vec<u8>)
    ensures
        r@ == trim(v@),
{
    let mut lo: usize = 0;
    while lo < v.len() && is_ws_byte(v[lo])
        invariant
            lo <= v.len(),
            forall|j: int| 0 <= j < lo ==> is_ascii_ws(v@[j]),
        decreases v.len() - lo,
    {
        lo = lo + 1;
    }
    proof {
        lemma_trim_left_is_skip(v@, lo as int);
    }
    if lo == v.len() {
        proof {
            assert(trim_left(v@) =~= Seq::<u8>::empty());
            assert(trim_right(Seq::<u8>::empty()) =~= Seq::<u8>::empty());
        }
        return Vec::new();
    }
    let mut hi: usize = v.len();
    while hi > lo && is_ws_byte(v[hi - 1])
        invariant
            lo < v.len(),
            lo < hi <= v.len(),
            !is_ascii_ws(v@[lo as int]),
            forall|j: int| hi <= j < v.len() ==> is_ascii_ws(v@[j]),
        decreases hi,
    {
        hi = hi - 1;
    }
    proof {
        let s = v@.skip(lo as int);
        assert forall|j: int| hi - lo <= j < s.len() implies is_ascii_ws(s[j]) by {
            assert(s[j] == v@[j + lo]);
        }
        assert(hi > lo);
        assert(s[hi - lo - 1] == v@[hi - 1]);
        lemma_trim_right_is_take(s, hi - lo);
        assert(s.take(hi - lo) =~= v@.subrange(lo as int, hi as int));
    }
    subvec(v, lo, hi)
}

/// Executable test for [`is_ascii_ws`].
pub fn is_ws_byte(b: u8) -> (r: bool)
    ensures
        r == is_ascii_ws(b),
{
    b == 32 || b == 9 || b == 10 || b == 11 || b == 12 || b == 13
}

/// The views of a sequence of byte vectors.
pub open spec fn seq_views(ls: Seq<Vec<u8>>) -> Seq<Seq<u8>> {
    ls.map_values(|l: Vec<u8>| l@)
}

/// Appends all of `s` to `v`.
pub fn push_all(v: &mut Vec<u8>, s: &Vec<u8>)
    ensures
        final(v)@ == old(v)@ + s@,
{
    proof {
        assert(old(v)@ + s@.take(0) =~= old(v)@);
    }
    let mut i: usize = 0;
    while i < s.len()
        invariant
            i <= s.len(),
            v@ == old(v)@ + s@.take(i as int),
        decreases s.len() - i,
    {
        v.push(s[i]);
        proof {
            assert(old(v)@ + s@.take(i + 1) =~= (old(v)@ + s@.take(i as int)).push(s@[i as int]));
        }
        i = i + 1;
    }
    proof {
        assert(s@.take(s@.len() as int) =~= s@);
    }
}

/// An ASCII decimal digit.
pub open spec fn is_digit(b: u8) -> bool {
    48 <= b <= 57
}

pub open spec fn all_digits(s: Seq<u8>) -> bool {
    forall|i: int| 0 <= i < s.len() ==> is_digit(#[trigger] s[i])
}

/// The number denoted by a sequence of decimal digits.
pub open spec fn dec_value(s: Seq<u8>) -> int
    decreases s.len(),
{
    if s.len() == 0 {
        0
    } else {
        dec_value(s.take(s.len() - 1)) * 10 + (s[s.len() - 1] - 48)
    }
}

/// A byte sequence read as a non-negative decimal number: one optional
/// leading `+`, then one or more digits denoting a value that fits in
/// `usize`; `None` otherwise.
pub open spec fn parse_dec(s: Seq<u8>) -> Option<int> {
    let digits = if s.len() > 0 && s[0] == 43 {
        s.skip(1)
    } else {
        s
    };
    if digits.len() > 0 && all_digits(digits) && dec_value(digits) <= usize::MAX {
        Some(dec_value(digits))
    } else {
        None
    }
}

/// The decimal digits of a non-negative number, most significant first and
/// without leading zeros.
pub open spec fn dec_digits(n: int) -> Seq<u8>
    decreases n,
{
    if n < 10 {
        seq![(48 + if n >= 0 { n } else { 0 }) as u8]
    } else {
        dec_digits(n / 10).push((48 + n % 10) as u8)
    }
}

pub proof fn lemma_dec_value_nonneg(s: Seq<u8>)
    requires
        all_digits(s),
    ensures
        dec_value(s) >= 0,
    decreases s.len(),
{
    if s.len() > 0 {
        assert(forall|i: int| 0 <= i < s.len() - 1 ==> is_digit(#[trigger] s.take(s.len() - 1)[i]));
        lemma_dec_value_nonneg(s.take(s.len() - 1));
    }
}

/// Appending digits can only increase the denoted value.
pub proof fn lemma_dec_value_prefix_le(s: Seq<u8>, i: int)
    requires
        all_digits(s),
        0 <= i <= s.len(),
    ensures
        dec_value(s.take(i)) <= dec_value(s),
    decreases s.len() - i,
{
    if i < s.len() {
        let t = s.take(i + 1);
        assert(forall|j: int| 0 <= j < t.len() ==> is_digit(#[trigger] t[j]));
        assert(t.take(i) =~= s.take(i));
        assert(dec_value(t) == dec_value(s.take(i)) * 10 + (s[i] - 48));
        assert(forall|j: int| 0 <= j < i ==> is_digit(#[trigger] s.take(i)[j]));
        lemma_dec_value_nonneg(s.take(i));
        assert(dec_value(s.take(i)) <= dec_value(s.take(i)) * 10 + (s[i] - 48)) by (nonlinear_arith)
            requires
                dec_value(s.take(i)) >= 0,
                48 <= s[i] <= 57,
        ;
        lemma_dec_value_prefix_le(s, i + 1);
    } else {
        assert(s.take(i) =~= s);
    }
}

/// The decimal form of `n`, digits only.
pub fn usize_to_dec(n: usize) -> (v: Vec<u8>)
    ensures
        v@ == dec_digits(n as int),
    decreases n,
{
    if n < 10 {
        let mut v: Vec<u8> = Vec::new();
        v.push(48 + (n as u8));
        proof {
            assert(v@ =~= dec_digits(n as int));
        }
        v
    } else {
        let mut v = usize_to_dec(n / 10);
        v.push(48 + ((n % 10) as u8));
        v
    }
}

/// Reads `s` as a non-negative decimal `usize`, past one optional leading
/// `+`; `None` on an empty run of digits, a non-digit, or overflow, as
/// [`parse_dec`] says.
pub fn parse_dec_bytes(s: &Vec<u8>) -> (r: Option<usize>)
    ensures
        match r {
            Some(n) => parse_dec(s@) == Some(n as int),
            None => parse_dec(s@) is None,
        },
{
    let start: usize = if s.len() > 0 && s[0] == 43 {
        1
    } else {
        0
    };
    let ghost digits = if start == 1 {
        s@.skip(1)
    } else {
        s@
    };
    if s.len() == start {
        return None;
    }
    let mut acc: usize = 0;
    let mut i: usize = start;
    proof {
        assert(digits.take(0) =~= Seq::<u8>::empty());
    }
    while i < s.len()
        invariant
            start <= i <= s@.len(),
            start == 1 ==> s@.len() > 0 && s@[0] == 43,
            start == 0 ==> !(s@.len() > 0 && s@[0] == 43),
            digits == (if start == 1 {
                s@.skip(1)
            } else {
                s@
            }),
            digits.len() == s@.len() - start,
            forall|j: int| 0 <= j < i - start ==> is_digit(#[trigger] digits[j]),
            acc == dec_value(digits.take(i as int - start as int)),
        decreases s.len() - i,
    {
        let b = s[i];
        proof {
            assert(digits[i as int - start as int] == s@[i as int]);
        }
        if b < 48 || b > 57 {
            proof {
                assert(!is_digit(digits[i as int - start as int]));
                assert(!all_digits(digits));
            }
            return None;
        }
        let d: usize = (b - 48) as usize;
        let ghost k = i as int - start as int;
        proof {
            assert(digits.take(k + 1).take(k) =~= digits.take(k));
            assert(digits.take(k + 1)[k] == digits[k]);
            assert(dec_value(digits.take(k + 1)) == acc * 10 + d);
        }
        if acc > (usize::MAX - d) / 10 {
            proof {
                assert(acc * 10 + d > usize::MAX) by (nonlinear_arith)
                    requires
                        acc > (usize::MAX - d) / 10,
                        0 <= d <= 9,
                ;
                if all_digits(digits) {
                    lemma_dec_value_prefix_le(digits, k + 1);
                    assert(dec_value(digits) >= dec_value(digits.take(k + 1)));
                    assert(dec_value(digits) > usize::MAX);
                }
            }
            return None;
        }
        proof {
            assert(acc * 10 + d <= usize::MAX) by (nonlinear_arith)
                requires
                    acc <= (usize::MAX - d) / 10,
                    0 <= d <= 9,
            ;
        }
        acc = acc * 10 + d;
        i = i + 1;
    }
    proof {
        assert(digits.take(digits.len() as int) =~= digits);
    }
    Some(acc)
}

} // verus!
