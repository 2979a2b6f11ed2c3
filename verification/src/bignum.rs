//! Natural numbers of any size as decimal digits, least significant first:
//! just what is needed to compare `digits × 2^p` with a power of ten.
use vstd::prelude::*;

use crate::numbers::{
    all_digits, digit_value, digits_value, is_digit, lemma_digits_split, lemma_pow10_add,
    lemma_pow10_mono, pow10,
};

verus! {

/// `2` to the power `k`.
pub open spec fn pow2n(k: nat) -> nat
    decreases k,
{
    if k == 0 {
        1
    } else {
        2 * pow2n((k - 1) as nat)
    }
}

/// The number that decimal digits denote, least significant first.
pub open spec fn rev_value(ds: Seq<u8>) -> nat
    decreases ds.len(),
{
    if ds.len() == 0 {
        0
    } else {
        ds[0] as nat + 10 * rev_value(ds.drop_first())
    }
}

/// Every entry is a decimal digit.
pub open spec fn digits_ok(ds: Seq<u8>) -> bool {
    forall|i: int| 0 <= i < ds.len() ==> #[trigger] ds[i] < 10
}

/// A digit put on top adds it times the place's power of ten.
proof fn lemma_rev_push(t: Seq<u8>, x: u8)
    ensures
        rev_value(t.push(x)) == rev_value(t) + x * pow10(t.len()),
    decreases t.len(),
{
    if t.len() == 0 {
        assert(t.push(x).drop_first() =~= Seq::<u8>::empty());
        assert(t.push(x)[0] == x);
        assert(rev_value(Seq::<u8>::empty()) == 0);
        assert(pow10(0) == 1);
        assert(x * pow10(0) == x);
    } else {
        assert(t.push(x).drop_first() =~= t.drop_first().push(x));
        assert(t.push(x)[0] == t[0]);
        lemma_rev_push(t.drop_first(), x);
        let p = pow10((t.len() - 1) as nat);
        assert(pow10(t.len()) == 10 * p);
        assert(10 * (rev_value(t.drop_first()) + x * p) == 10 * rev_value(t.drop_first()) + x * (10
            * p)) by (nonlinear_arith);
    }
}

/// Digits below ten stay below the power of ten of their count.
proof fn lemma_rev_bound(t: Seq<u8>)
    requires
        digits_ok(t),
    ensures
        rev_value(t) < pow10(t.len()),
    decreases t.len(),
{
    if t.len() > 0 {
        assert(digits_ok(t.drop_first())) by {
            assert forall|i: int| 0 <= i < t.drop_first().len() implies #[trigger] t.drop_first()[i] < 10 by {
                assert(t.drop_first()[i] == t[i + 1]);
            }
        }
        lemma_rev_bound(t.drop_first());
        assert(t[0] < 10);
        assert(pow10(t.len()) == 10 * pow10((t.len() - 1) as nat));
    }
}

/// The digits, least significant first, of the decimal digits `s[lo..hi]`.
fn rev_digits(s: &Vec<char>, lo: usize, hi: usize) -> (r: Vec<u8>)
    requires
        lo <= hi <= s.len(),
        all_digits(s@.subrange(lo as int, hi as int)),
    ensures
        digits_ok(r@),
        r@.len() == hi - lo,
        rev_value(r@) == digits_value(s@.subrange(lo as int, hi as int)),
{
    let mut r: Vec<u8> = Vec::new();
    let mut i: usize = 0;
    assert(s@.subrange(hi as int, hi as int) =~= Seq::<char>::empty());
    while i < hi - lo
        invariant
            lo <= hi <= s.len(),
            i <= hi - lo,
            r@.len() == i,
            digits_ok(r@),
            all_digits(s@.subrange(lo as int, hi as int)),
            rev_value(r@) == digits_value(s@.subrange(hi - i, hi as int)),
        decreases hi - lo - i,
    {
        let c = s[hi - 1 - i];
        let ghost sub = s@.subrange(hi - i - 1, hi as int);
        assert(is_digit(s@.subrange(lo as int, hi as int)[hi - 1 - i - lo]));
        assert(s@.subrange(lo as int, hi as int)[hi - 1 - i - lo] == c);
        let d: u8 = #[verifier::truncate] ((c as u32 - 0x30) as u8);
        proof {
            lemma_digits_split(sub, 1);
            assert(sub.skip(1) =~= s@.subrange(hi - i, hi as int));
            assert(sub.take(1).drop_last() =~= Seq::<char>::empty());
            assert(sub.take(1).last() == c);
            assert(digits_value(Seq::<char>::empty()) == 0);
            assert(digits_value(sub.take(1)) == digit_value(c));
            lemma_rev_push(r@, d);
            assert(d * pow10(i as nat) == digit_value(c) * pow10(i as nat));
        }
        r.push(d);
        i += 1;
    }
    r
}

/// Twice the number.
fn double(a: &Vec<u8>) -> (r: Vec<u8>)
    requires
        digits_ok(a@),
    ensures
        digits_ok(r@),
        rev_value(r@) == 2 * rev_value(a@),
        r@.len() <= a@.len() + 1,
{
    let mut r: Vec<u8> = Vec::new();
    let mut c: u8 = 0;
    let mut i: usize = 0;
    assert(a@.take(0) =~= Seq::<u8>::empty());
    while i < a.len()
        invariant
            i <= a.len(),
            r@.len() == i,
            c <= 1,
            digits_ok(a@),
            digits_ok(r@),
            rev_value(r@) + c * pow10(i as nat) == 2 * rev_value(a@.take(i as int)),
        decreases a.len() - i,
    {
        let s: u8 = 2 * a[i] + c;
        let d: u8 = s % 10;
        let nc: u8 = s / 10;
        proof {
            assert(a@.take(i + 1) =~= a@.take(i as int).push(a@[i as int]));
            lemma_rev_push(a@.take(i as int), a@[i as int]);
            lemma_rev_push(r@, d);
            let p = pow10(i as nat);
            assert(pow10((i + 1) as nat) == 10 * p);
            assert(s == d + 10 * nc);
            assert(d * p + nc * (10 * p) == s * p) by (nonlinear_arith)
                requires
                    s == d + 10 * nc,
            ;
            assert(s * p == 2 * (a@[i as int] * p) + c * p) by (nonlinear_arith)
                requires
                    s == 2 * a@[i as int] + c,
            ;
        }
        r.push(d);
        c = nc;
        i += 1;
    }
    assert(a@.take(a.len() as int) =~= a@);
    if c > 0 {
        proof {
            lemma_rev_push(r@, c);
        }
        r.push(c);
    } else {
        assert(c * pow10(i as nat) == 0);
    }
    r
}

/// One more than the number.
fn add_one(a: &Vec<u8>) -> (r: Vec<u8>)
    requires
        digits_ok(a@),
    ensures
        digits_ok(r@),
        rev_value(r@) == rev_value(a@) + 1,
        r@.len() <= a@.len() + 1,
{
    let mut r: Vec<u8> = Vec::new();
    let mut c: u8 = 1;
    let mut i: usize = 0;
    assert(a@.take(0) =~= Seq::<u8>::empty());
    assert(pow10(0) == 1);
    while i < a.len()
        invariant
            i <= a.len(),
            r@.len() == i,
            c <= 1,
            digits_ok(a@),
            digits_ok(r@),
            rev_value(r@) + c * pow10(i as nat) == rev_value(a@.take(i as int)) + 1,
        decreases a.len() - i,
    {
        let s: u8 = a[i] + c;
        let d: u8 = s % 10;
        let nc: u8 = s / 10;
        proof {
            assert(a@.take(i + 1) =~= a@.take(i as int).push(a@[i as int]));
            lemma_rev_push(a@.take(i as int), a@[i as int]);
            lemma_rev_push(r@, d);
            let p = pow10(i as nat);
            assert(pow10((i + 1) as nat) == 10 * p);
            assert(d * p + nc * (10 * p) == s * p) by (nonlinear_arith)
                requires
                    s == d + 10 * nc,
            ;
            assert(s * p == a@[i as int] * p + c * p) by (nonlinear_arith)
                requires
                    s == a@[i as int] + c,
            ;
        }
        r.push(d);
        c = nc;
        i += 1;
    }
    assert(a@.take(a.len() as int) =~= a@);
    if c > 0 {
        proof {
            lemma_rev_push(r@, c);
        }
        r.push(c);
    } else {
        assert(c * pow10(i as nat) == 0);
    }
    r
}

/// The complement of an `m`-digit number below `10^m`: `10^m − 1 − n`, in
/// `m` digits, where the number's digits are fewer than `m`.
fn nines(a: &Vec<u8>, m: usize) -> (r: Vec<u8>)
    requires
        digits_ok(a@),
        a@.len() <= m,
    ensures
        digits_ok(r@),
        r@.len() == m,
        rev_value(r@) + rev_value(a@) + 1 == pow10(m as nat),
{
    let mut r: Vec<u8> = Vec::new();
    let mut i: usize = 0;
    assert(pow10(0) == 1);
    while i < m
        invariant
            i <= m,
            a@.len() <= m,
            r@.len() == i,
            digits_ok(a@),
            digits_ok(r@),
            rev_value(r@) + rev_value(a@.take(if i <= a@.len() { i as int } else { a@.len() as int }))
                + 1 == pow10(i as nat),
        decreases m - i,
    {
        let ai: u8 = if i < a.len() {
            a[i]
        } else {
            0
        };
        let d: u8 = 9 - ai;
        proof {
            let k = if i <= a@.len() { i as int } else { a@.len() as int };
            let k2 = if i + 1 <= a@.len() { i + 1 } else { a@.len() as int };
            lemma_rev_push(r@, d);
            let p = pow10(i as nat);
            assert(pow10((i + 1) as nat) == 10 * p);
            if i < a.len() {
                assert(a@.take(i + 1) =~= a@.take(i as int).push(a@[i as int]));
                lemma_rev_push(a@.take(i as int), a@[i as int]);
                assert(d * p + ai * p == 9 * p) by (nonlinear_arith)
                    requires
                        d + ai == 9,
                ;
            } else {
                assert(k == k2);
                assert(d * p == 9 * p);
            }
        }
        r.push(d);
        i += 1;
    }
    assert(a@.take(a@.len() as int) =~= a@);
    r
}

/// How many digits count: the length without the zeros on top of the
/// first `hi` digits.
fn sig_len(a: &Vec<u8>, hi: usize) -> (l: usize)
    requires
        hi <= a.len(),
    ensures
        l <= hi,
        rev_value(a@.take(hi as int)) == rev_value(a@.take(l as int)),
        l > 0 ==> a@[l - 1] != 0,
{
    let mut l: usize = 0;
    let mut i: usize = 0;
    while i < hi
        invariant
            i <= hi <= a.len(),
            l <= i,
            rev_value(a@.take(i as int)) == rev_value(a@.take(l as int)),
            l > 0 ==> a@[l - 1] != 0,
        decreases hi - i,
    {
        proof {
            assert(a@.take(i + 1) =~= a@.take(i as int).push(a@[i as int]));
            lemma_rev_push(a@.take(i as int), a@[i as int]);
        }
        if a[i] != 0 {
            l = i + 1;
        }
        i += 1;
    }
    l
}

/// The value of the first `l` digits, where the top one is not zero, is at
/// least `10^(l-1)`.
proof fn lemma_rev_lead(a: Seq<u8>, l: int)
    requires
        0 < l <= a.len(),
        a[l - 1] != 0,
        digits_ok(a),
    ensures
        rev_value(a.take(l)) >= pow10((l - 1) as nat),
        rev_value(a.take(l)) == rev_value(a.take(l - 1)) + a[l - 1] * pow10((l - 1) as nat),
        rev_value(a.take(l - 1)) < pow10((l - 1) as nat),
{
    assert(a.take(l) =~= a.take(l - 1).push(a[l - 1]));
    lemma_rev_push(a.take(l - 1), a[l - 1]);
    assert(digits_ok(a.take(l - 1))) by {
        assert forall|i: int| 0 <= i < a.take(l - 1).len() implies #[trigger] a.take(l - 1)[i] < 10 by {
            assert(a.take(l - 1)[i] == a[i]);
        }
    }
    lemma_rev_bound(a.take(l - 1));
    assert(a[l - 1] * pow10((l - 1) as nat) >= pow10((l - 1) as nat)) by (nonlinear_arith)
        requires
            a[l - 1] >= 1,
    ;
}

/// Whether the number is at most `10^m`.
fn le_pow10(a: &Vec<u8>, mw: u128) -> (b: bool)
    requires
        digits_ok(a@),
    ensures
        b == (rev_value(a@) <= pow10(mw as nat)),
{
    let ghost m = mw as nat;
    let l = sig_len(a, a.len());
    assert(a@.take(a.len() as int) =~= a@);
    if l == 0 {
        assert(a@.take(0) =~= Seq::<u8>::empty());
        return true;
    }
    proof {
        lemma_rev_lead(a@, l as int);
    }
    if l as u128 <= mw {
        proof {
            lemma_pow10_add((l - 1) as nat, 1);
            assert(pow10(1) == 10) by {
                assert(pow10(0) == 1);
            }
            assert(rev_value(a@.take(l as int)) < pow10(l as nat)) by (nonlinear_arith)
                requires
                    rev_value(a@.take(l as int)) == rev_value(a@.take(l - 1)) + a@[l - 1] * pow10(
                        (l - 1) as nat,
                    ),
                    rev_value(a@.take(l - 1)) < pow10((l - 1) as nat),
                    a@[l - 1] <= 9,
                    pow10(l as nat) == pow10((l - 1) as nat) * 10,
            ;
            lemma_pow10_mono(l as nat, m as nat);
        }
        return true;
    }
    if (l - 1) as u128 > mw {
        proof {
            lemma_pow10_mono((m + 1) as nat, (l - 1) as nat);
            assert(pow10((m + 1) as nat) == 10 * pow10(m as nat));
            lemma_pow10_add(m as nat, 0);
        }
        return false;
    }
    // The top digit is the one at place `m`.
    let mu: usize = l - 1;
    assert(mu == m);
    let low = sig_len(a, mu);
    proof {
        assert(a@.take(l as int).take(m as int) =~= a@.take(m as int));
        if low > 0 {
            lemma_rev_lead(a@, low as int);
        } else {
            assert(a@.take(0) =~= Seq::<u8>::empty());
        }
        assert(a@.take(m as int).len() == m);
        assert(digits_ok(a@.take(m as int))) by {
            assert forall|i: int| 0 <= i < a@.take(m as int).len() implies #[trigger] a@.take(m as int)[i] < 10 by {
                assert(a@.take(m as int)[i] == a@[i]);
            }
        }
        lemma_rev_bound(a@.take(m as int));
        lemma_pow10_add(m as nat, 0);
    }
    assert(l - 1 == m);
    assert(rev_value(a@) == rev_value(a@.take(m as int)) + a@[m as int] * pow10(m as nat));
    if a[mu] == 1 && low == 0 {
        assert(a@.take(0) =~= Seq::<u8>::empty());
        assert(rev_value(a@.take(m as int)) == 0);
        assert(1 * pow10(m as nat) == pow10(m as nat));
        true
    } else {
        proof {
            if low > 0 {
                lemma_pow10_add((low - 1) as nat, 0);
                assert(rev_value(a@.take(m as int)) >= 1);
            }
            assert(a@[m as int] >= 1);
            assert(a@[m as int] * pow10(m as nat) >= pow10(m as nat)) by (nonlinear_arith)
                requires
                    a@[m as int] >= 1,
            ;
            if a@[m as int] >= 2 {
                assert(a@[m as int] * pow10(m as nat) >= 2 * pow10(m as nat)) by (nonlinear_arith)
                    requires
                        a@[m as int] >= 2,
                ;
            }
        }
        false
    }
}

/// Whether `digits(s[lo..hi]) × 2^p ≤ 10^m`.
pub fn times_pow2_le_pow10(s: &Vec<char>, lo: usize, hi: usize, p: u32, m: u128) -> (b: bool)
    requires
        lo <= hi <= s.len(),
        all_digits(s@.subrange(lo as int, hi as int)),
    ensures
        b == (digits_value(s@.subrange(lo as int, hi as int)) * pow2n(p as nat) <= pow10(m as nat)),
{
    let mut a = rev_digits(s, lo, hi);
    let ghost v = digits_value(s@.subrange(lo as int, hi as int));
    let mut j: u32 = 0;
    assert(pow2n(0) == 1);
    assert(v * pow2n(0) == v);
    while j < p
        invariant
            j <= p,
            digits_ok(a@),
            rev_value(a@) == v * pow2n(j as nat),
        decreases p - j,
    {
        a = double(&a);
        proof {
            assert(pow2n((j + 1) as nat) == 2 * pow2n(j as nat));
            assert(2 * (v * pow2n(j as nat)) == v * (2 * pow2n(j as nat))) by (nonlinear_arith);
        }
        j += 1;
    }
    le_pow10(&a, m)
}

/// Whether `(10^m − digits(s[lo..hi])) × 2^p ≤ 10^m`, for at most `m`
/// digits.
pub fn complement_times_pow2_le_pow10(s: &Vec<char>, lo: usize, hi: usize, p: u32, m: usize) -> (b: bool)
    requires
        lo <= hi <= s.len(),
        hi - lo <= m,
        all_digits(s@.subrange(lo as int, hi as int)),
    ensures
        digits_value(s@.subrange(lo as int, hi as int)) < pow10(m as nat),
        b == ((pow10(m as nat) - digits_value(s@.subrange(lo as int, hi as int))) * pow2n(p as nat)
            <= pow10(m as nat)),
{
    let d = rev_digits(s, lo, hi);
    let n = nines(&d, m);
    let mut a = add_one(&n);
    let ghost v = (pow10(m as nat) - digits_value(s@.subrange(lo as int, hi as int))) as nat;
    proof {
        lemma_rev_bound(n@);
    }
    assert(rev_value(a@) == v);
    let mut j: u32 = 0;
    assert(pow2n(0) == 1);
    assert(v * pow2n(0) == v);
    while j < p
        invariant
            j <= p,
            digits_ok(a@),
            rev_value(a@) == v * pow2n(j as nat),
        decreases p - j,
    {
        a = double(&a);
        proof {
            assert(pow2n((j + 1) as nat) == 2 * pow2n(j as nat));
            assert(2 * (v * pow2n(j as nat)) == v * (2 * pow2n(j as nat))) by (nonlinear_arith);
        }
        j += 1;
    }
    le_pow10(&a, m as u128)
}

} // verus!
