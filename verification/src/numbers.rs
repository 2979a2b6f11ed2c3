//! Numbers written in data files: the integer syntax of `str::parse` for
//! `u8`, `u32` and `i32`, decimal literals, and integers that may be written
//! as decimals and are rounded up.
use vstd::prelude::*;

use crate::chars::{find_sep, sep_pos, lemma_sep_pos_bound, subvec};
use crate::bignum::{complement_times_pow2_le_pow10, pow2n, times_pow2_le_pow10};

verus! {

pub open spec fn is_digit(c: char) -> bool {
    0x30 <= (c as u32) <= 0x39
}

pub open spec fn digit_value(c: char) -> nat {
    ((c as u32) - 0x30) as nat
}

pub open spec fn all_digits(s: Seq<char>) -> bool {
    forall|i: int| 0 <= i < s.len() ==> is_digit(#[trigger] s[i])
}

/// The number that a string of decimal digits denotes.
pub open spec fn digits_value(s: Seq<char>) -> nat
    decreases s.len(),
{
    if s.len() == 0 {
        0
    } else {
        digits_value(s.drop_last()) * 10 + digit_value(s.last())
    }
}

/// A run of digits after an optional `+`: the value, if the text is one.
pub open spec fn nat_text(s: Seq<char>) -> Option<nat> {
    let d = if s.len() > 0 && s[0] == '+' {
        s.drop_first()
    } else {
        s
    };
    if d.len() > 0 && all_digits(d) {
        Some(digits_value(d))
    } else {
        None
    }
}

/// A run of digits after an optional `+` or `-`: the value, if the text is one.
pub open spec fn int_text(s: Seq<char>) -> Option<int> {
    if s.len() > 0 && s[0] == '-' {
        let d = s.drop_first();
        if d.len() > 0 && all_digits(d) {
            Some(-(digits_value(d) as int))
        } else {
            None
        }
    } else {
        match nat_text(s) {
            Some(n) => Some(n as int),
            None => None,
        }
    }
}

/// `str::parse::<u32>`.
pub open spec fn u32_text(s: Seq<char>) -> Option<u32> {
    match nat_text(s) {
        Some(n) => if n <= u32::MAX {
            Some(n as u32)
        } else {
            None
        },
        None => None,
    }
}

/// `str::parse::<u8>`.
pub open spec fn u8_text(s: Seq<char>) -> Option<u8> {
    match nat_text(s) {
        Some(n) => if n <= u8::MAX {
            Some(n as u8)
        } else {
            None
        },
        None => None,
    }
}

/// `str::parse::<i32>`.
pub open spec fn i32_text(s: Seq<char>) -> Option<i32> {
    match int_text(s) {
        Some(n) => if i32::MIN <= n <= i32::MAX {
            Some(n as i32)
        } else {
            None
        },
        None => None,
    }
}

pub open spec fn has_nonzero(s: Seq<char>) -> bool {
    exists|i: int| 0 <= i < s.len() && s[i] != '0'
}

/// `10` to the power `k`.
pub open spec fn pow10(k: nat) -> nat
    decreases k,
{
    if k == 0 {
        1
    } else {
        10 * pow10((k - 1) as nat)
    }
}

/// A finite number in the syntax of `str::parse::<f64>` (an optional sign,
/// digits with an optional point, an optional exponent): whether it is
/// negative, its digits without the point, and the power of ten that they
/// are scaled by (the exponent less the number of digits after the point).
pub open spec fn float_parts(s: Seq<char>) -> Option<(bool, Seq<char>, int)> {
    let negative = s.len() > 0 && s[0] == '-';
    let t = unsigned(s);
    let e = sep_pos(t, seq!['e', 'E'], false);
    let m = t.take(e as int);
    if is_mantissa(m) && (e >= t.len() || is_exponent(t.skip((e + 1) as int))) {
        let d = sep_pos(m, seq!['.'], false);
        let frac = if d < m.len() {
            m.skip((d + 1) as int)
        } else {
            seq![]
        };
        let exp = if e >= t.len() {
            0
        } else {
            int_text(t.skip((e + 1) as int)).unwrap()
        };
        Some((negative, m.take(d as int) + frac, exp - frac.len()))
    } else {
        None
    }
}

/// The least integer at or above `±digits × 10^scale`.
pub open spec fn parts_ceil(negative: bool, ds: Seq<char>, scale: int) -> int {
    let d = digits_value(ds);
    if scale >= 0 {
        let v = d * pow10(scale as nat);
        if negative {
            -(v as int)
        } else {
            v as int
        }
    } else {
        let p = pow10((-scale) as nat);
        let q = d / p;
        let r = d % p;
        if negative {
            -(q as int)
        } else {
            q + if r > 0 {
                1int
            } else {
                0int
            }
        }
    }
}

/// An integer as a `u32`, where it fits.
pub open spec fn fit_u32(c: int) -> Option<u32> {
    if 0 <= c <= u32::MAX {
        Some(c as u32)
    } else {
        None
    }
}

/// The number of binary digits of `n`.
pub open spec fn bit_len(n: nat) -> nat
    decreases n,
{
    if n == 0 {
        0
    } else {
        1 + bit_len(n / 2)
    }
}

/// The whole part of `digits × 10^-m`: the digits before the last `m`.
pub open spec fn whole_part(ds: Seq<char>, m: nat) -> nat {
    if m <= ds.len() {
        digits_value(ds.take(ds.len() - m))
    } else {
        0
    }
}

/// The fraction of `digits × 10^-m` times `10^m`: the last `m` digits.
pub open spec fn frac_part(ds: Seq<char>, m: nat) -> nat {
    if m <= ds.len() {
        digits_value(ds.skip(ds.len() - m))
    } else {
        digits_value(ds)
    }
}

/// Half the gap above the whole number `w` to the next `f64`, as a power
/// of one half: `2^-1075` above 0 (the least double is `2^-1074`), else
/// `2^(bit_len(w) - 54)`.
pub open spec fn half_gap_bits(w: nat) -> nat {
    if w == 0 {
        1075
    } else {
        (54 - bit_len(w)) as nat
    }
}

/// `±digits × 10^scale` as `str::parse::<f64>` reads it and `f64::ceil`
/// rounds it up, as a `u32` where that fits. Parsing rounds to the nearest
/// double, ties to even. A whole number `w` below `2^32` is a double, even
/// in its last place, so a value above it by at most half the gap to the
/// next double reads as `w`, and otherwise the value rounds up as it is.
/// Just above `-1` the doubles lie `2^-53` apart, so a value at most
/// `2^-54` above `-1` reads as `-1`. Elsewhere reading cannot cross a whole
/// number.
pub open spec fn f64_ceil_u32(negative: bool, ds: Seq<char>, scale: int) -> Option<u32> {
    let m = (-scale) as nat;
    let w = whole_part(ds, m);
    let f = frac_part(ds, m);
    if scale >= 0 || f == 0 {
        fit_u32(parts_ceil(negative, ds, scale))
    } else if negative {
        if w >= 1 || (pow10(m) - f) * pow2n(54) <= pow10(m) {
            None
        } else {
            Some(0)
        }
    } else if w > u32::MAX {
        None
    } else if f * pow2n(half_gap_bits(w)) <= pow10(m) {
        Some(w as u32)
    } else {
        fit_u32(w + 1int)
    }
}

/// An integer that may be written as any number: the text as a `u32`, or
/// else as a number of `str::parse::<f64>` syntax read as an `f64` and
/// rounded up, where that fits a `u32`. (Infinities and NaN are left out:
/// their conversion is undefined.)
pub open spec fn maybe_float_int(s: Seq<char>) -> Option<u32> {
    match u32_text(s) {
        Some(v) => Some(v),
        None => match float_parts(s) {
            Some((negative, ds, scale)) => f64_ceil_u32(negative, ds, scale),
            None => None,
        },
    }
}

pub(crate) proof fn lemma_pow10_add(a: nat, b: nat)
    ensures
        pow10(a + b) == pow10(a) * pow10(b),
        pow10(a) >= 1,
    decreases a,
{
    if a > 0 {
        let a1 = (a - 1) as nat;
        lemma_pow10_add(a1, b);
        assert((a + b) as nat == (a1 + b + 1) as nat);
        assert(pow10(a + b) == 10 * pow10(a1 + b));
        assert(pow10(a) == 10 * pow10(a1));
        let x = pow10(a1);
        let y = pow10(b);
        assert(10 * (x * y) == (10 * x) * y) by (nonlinear_arith);
    } else {
        assert(pow10(0) == 1);
        assert(1 * pow10(b) == pow10(b));
    }
}

pub(crate) proof fn lemma_pow10_mono(a: nat, b: nat)
    requires
        a <= b,
    ensures
        pow10(a) <= pow10(b),
    decreases b,
{
    if a < b {
        lemma_pow10_mono(a, (b - 1) as nat);
        lemma_pow10_add((b - 1) as nat, 0);
    }
}

proof fn lemma_pow10_ten()
    ensures
        pow10(10) == 10_000_000_000,
{
    reveal_with_fuel(pow10, 11);
}

/// Splitting digits at `k`: the value of the front scaled, plus the back.
pub(crate) proof fn lemma_digits_split(s: Seq<char>, k: int)
    requires
        0 <= k <= s.len(),
    ensures
        digits_value(s) == digits_value(s.take(k)) * pow10((s.len() - k) as nat) + digits_value(s.skip(k)),
    decreases s.len() - k,
{
    if k == s.len() {
        assert(s.take(k) =~= s);
        assert(s.skip(k) =~= Seq::<char>::empty());
        assert(pow10(0) == 1);
        assert(digits_value(s.take(k)) * 1 == digits_value(s.take(k)));
    } else {
        let t = s.drop_last();
        lemma_digits_split(t, k);
        assert(t.take(k) =~= s.take(k));
        assert(s.skip(k).drop_last() =~= t.skip(k));
        assert(s.skip(k).last() == s.last());
        let a = digits_value(s.take(k));
        let p = pow10((t.len() - k) as nat);
        let b = digits_value(t.skip(k));
        assert(pow10((s.len() - k) as nat) == 10 * p);
        assert(digits_value(t) == a * p + b);
        assert(digits_value(s) == digits_value(t) * 10 + digit_value(s.last()));
        assert(digits_value(s.skip(k)) == b * 10 + digit_value(s.last()));
        assert((a * p + b) * 10 == a * (10 * p) + b * 10) by (nonlinear_arith);
    }
}

pub(crate) proof fn lemma_digits_bound(s: Seq<char>)
    requires
        all_digits(s),
    ensures
        digits_value(s) < pow10(s.len()),
    decreases s.len(),
{
    if s.len() > 0 {
        let t = s.drop_last();
        assert(all_digits(t)) by {
            assert forall|i: int| 0 <= i < t.len() implies is_digit(#[trigger] t[i]) by {
                assert(t[i] == s[i]);
            }
        }
        lemma_digits_bound(t);
        assert(is_digit(s[s.len() - 1]));
        assert(digit_value(s.last()) <= 9);
        assert(digits_value(t) + 1 <= pow10(t.len()));
        assert((digits_value(t) + 1) * 10 <= pow10(t.len()) * 10) by (nonlinear_arith)
            requires
                digits_value(t) + 1 <= pow10(t.len()),
        ;
    }
}

proof fn lemma_digit_zero(c: char)
    requires
        is_digit(c),
    ensures
        (digit_value(c) == 0) == (c == '0'),
{
    assert(('0' as u32) == 0x30);
    if (c as u32) == 0x30 {
        assert(c == ('0' as u32) as char);
    }
}

proof fn lemma_digits_lead(s: Seq<char>)
    requires
        all_digits(s),
        s.len() > 0,
        s[0] != '0',
    ensures
        digits_value(s) >= pow10((s.len() - 1) as nat),
{
    lemma_digits_split(s, 1);
    assert(s.take(1).drop_last() =~= Seq::<char>::empty());
    assert(s.take(1).last() == s[0]);
    assert(is_digit(s[0]));
    lemma_digit_zero(s[0]);
    assert(digits_value(s.take(1)) == digits_value(s.take(1).drop_last()) * 10 + digit_value(s[0]));
    assert(digits_value(s.take(1)) >= 1);
    assert(digits_value(s.take(1)) * pow10((s.len() - 1) as nat) >= pow10((s.len() - 1) as nat))
        by (nonlinear_arith)
        requires
            digits_value(s.take(1)) >= 1,
    ;
}

pub(crate) proof fn lemma_digits_zero(s: Seq<char>)
    requires
        all_digits(s),
    ensures
        (digits_value(s) == 0) == !has_nonzero(s),
    decreases s.len(),
{
    if s.len() > 0 {
        let t = s.drop_last();
        assert(all_digits(t)) by {
            assert forall|i: int| 0 <= i < t.len() implies is_digit(#[trigger] t[i]) by {
                assert(t[i] == s[i]);
            }
        }
        lemma_digits_zero(t);
        assert(is_digit(s[s.len() - 1]));
        lemma_digit_zero(s[s.len() - 1]);
        if has_nonzero(t) {
            let i = choose|i: int| 0 <= i < t.len() && t[i] != '0';
            assert(s[i] != '0');
        }
        if has_nonzero(s) && !has_nonzero(t) {
            let i = choose|i: int| 0 <= i < s.len() && s[i] != '0';
            if i < t.len() {
                assert(t[i] != '0');
            }
        }
        if !has_nonzero(s) {
            assert(s[s.len() - 1] == '0');
        }
    }
}

pub proof fn lemma_digits_prefix_le(s: Seq<char>, i: int, j: int)
    requires
        0 <= i <= j <= s.len(),
    ensures
        digits_value(s.take(i)) <= digits_value(s.take(j)),
    decreases j - i,
{
    if i < j {
        lemma_digits_prefix_le(s, i, j - 1);
        assert(s.take(j).drop_last() =~= s.take(j - 1));
    }
}

pub fn is_digit_char(c: char) -> (b: bool)
    ensures
        b == is_digit(c),
{
    let u = c as u32;
    0x30 <= u && u <= 0x39
}

/// Whether the characters from `lo` to `hi` are all digits.
pub fn all_digits_in(v: &Vec<char>, lo: usize, hi: usize) -> (b: bool)
    requires
        lo <= hi <= v.len(),
    ensures
        b == all_digits(v@.subrange(lo as int, hi as int)),
{
    let mut i = lo;
    while i < hi
        invariant
            lo <= i <= hi <= v.len(),
            forall|j: int| lo <= j < i ==> is_digit(#[trigger] v@[j]),
        decreases hi - i,
    {
        if !is_digit_char(v[i]) {
            assert(!is_digit(v@.subrange(lo as int, hi as int)[i - lo]));
            return false;
        }
        i += 1;
    }
    assert forall|k: int| 0 <= k < hi - lo implies is_digit(
        #[trigger] v@.subrange(lo as int, hi as int)[k],
    ) by {
        assert(v@.subrange(lo as int, hi as int)[k] == v@[lo + k]);
    }
    true
}

/// The value of the digits from `lo` to `hi`, where they are all digits and
/// their value is at most `limit`.
pub fn digits_upto(v: &Vec<char>, lo: usize, hi: usize, limit: u64) -> (r: Option<u64>)
    requires
        lo <= hi <= v.len(),
        limit <= u32::MAX as u64 + 1,
    ensures
        ({
            let d = v@.subrange(lo as int, hi as int);
            r == if all_digits(d) && digits_value(d) <= limit {
                Some(digits_value(d) as u64)
            } else {
                None
            }
        }),
{
    let ghost d = v@.subrange(lo as int, hi as int);
    if !all_digits_in(v, lo, hi) {
        return None;
    }
    let mut acc: u64 = 0;
    let mut i = lo;
    assert(d.take(0) =~= Seq::<char>::empty());
    while i < hi
        invariant
            lo <= i <= hi <= v.len(),
            limit <= u32::MAX as u64 + 1,
            d == v@.subrange(lo as int, hi as int),
            all_digits(d),
            acc == digits_value(d.take(i - lo)),
            acc <= limit,
        decreases hi - i,
    {
        assert(d.take(i - lo + 1).drop_last() =~= d.take(i - lo));
        assert(d.take(i - lo + 1).last() == v@[i as int]);
        assert(is_digit(d[i - lo]));
        let dig = (v[i] as u32 - 0x30) as u64;
        acc = acc * 10 + dig;
        if acc > limit {
            proof {
                lemma_digits_prefix_le(d, i - lo + 1, d.len() as int);
                assert(d.take(d.len() as int) =~= d);
            }
            return None;
        }
        i += 1;
    }
    assert(d.take(hi - lo) =~= d);
    Some(acc)
}

/// `str::parse::<u32>` on the characters of `v`.
pub fn parse_u32(v: &Vec<char>) -> (r: Option<u32>)
    ensures
        r == u32_text(v@),
{
    let start: usize = if v.len() > 0 && v[0] == '+' {
        1
    } else {
        0
    };
    let ghost d = if v@.len() > 0 && v@[0] == '+' {
        v@.drop_first()
    } else {
        v@
    };
    assert(d =~= v@.subrange(start as int, v.len() as int));
    if start == v.len() {
        return None;
    }
    match digits_upto(v, start, v.len(), u32::MAX as u64) {
        Some(n) => Some(n as u32),
        None => None,
    }
}

/// `str::parse::<u8>` on the characters of `v`.
pub fn parse_u8(v: &Vec<char>) -> (r: Option<u8>)
    ensures
        r == u8_text(v@),
{
    match parse_u32(v) {
        Some(n) => if n <= 255 {
            Some(n as u8)
        } else {
            None
        },
        None => None,
    }
}

/// `str::parse::<i32>` on the characters of `v`.
pub fn parse_i32(v: &Vec<char>) -> (r: Option<i32>)
    ensures
        r == i32_text(v@),
{
    if v.len() > 0 && v[0] == '-' {
        assert(v@.drop_first() =~= v@.subrange(1, v.len() as int));
        if v.len() == 1 {
            return None;
        }
        match digits_upto(v, 1, v.len(), 0x8000_0000) {
            Some(n) => Some((0 - (n as i64)) as i32),
            None => None,
        }
    } else {
        let start: usize = if v.len() > 0 && v[0] == '+' {
            1
        } else {
            0
        };
        let ghost d = if v@.len() > 0 && v@[0] == '+' {
            v@.drop_first()
        } else {
            v@
        };
        assert(d =~= v@.subrange(start as int, v.len() as int));
        if start == v.len() {
            return None;
        }
        match digits_upto(v, start, v.len(), 0x7FFF_FFFF) {
            Some(n) => Some(n as i32),
            None => None,
        }
    }
}

/// Whether the characters from `lo` to `hi` hold a digit other than `0`.
fn has_nonzero_in(v: &Vec<char>, lo: usize, hi: usize) -> (b: bool)
    requires
        lo <= hi <= v.len(),
    ensures
        b == has_nonzero(v@.subrange(lo as int, hi as int)),
{
    let mut i = lo;
    while i < hi
        invariant
            lo <= i <= hi <= v.len(),
            forall|j: int| lo <= j < i ==> v@[j] == '0',
        decreases hi - i,
    {
        if v[i] != '0' {
            assert(v@.subrange(lo as int, hi as int)[i - lo] != '0');
            return true;
        }
        i += 1;
    }
    assert forall|k: int| 0 <= k < hi - lo implies v@.subrange(lo as int, hi as int)[k] == '0' by {
        assert(v@.subrange(lo as int, hi as int)[k] == v@[lo + k]);
    }
    false
}


/// The value of the digits from `lo` to `hi`, where they are all digits and
/// their value is at most `limit`.
fn digits_within(v: &Vec<char>, lo: usize, hi: usize, limit: u128) -> (r: Option<u128>)
    requires
        lo <= hi <= v.len(),
        limit <= 0x1_0000_0000_0000_0000_0000_0000,
    ensures
        ({
            let d = v@.subrange(lo as int, hi as int);
            r == if all_digits(d) && digits_value(d) <= limit {
                Some(digits_value(d) as u128)
            } else {
                None
            }
        }),
{
    let ghost d = v@.subrange(lo as int, hi as int);
    if !all_digits_in(v, lo, hi) {
        return None;
    }
    let mut acc: u128 = 0;
    let mut i = lo;
    assert(d.take(0) =~= Seq::<char>::empty());
    while i < hi
        invariant
            lo <= i <= hi <= v.len(),
            limit <= 0x1_0000_0000_0000_0000_0000_0000,
            d == v@.subrange(lo as int, hi as int),
            all_digits(d),
            acc == digits_value(d.take(i - lo)),
            acc <= limit,
        decreases hi - i,
    {
        assert(d.take(i - lo + 1).drop_last() =~= d.take(i - lo));
        assert(d.take(i - lo + 1).last() == v@[i as int]);
        assert(is_digit(d[i - lo]));
        let dig = (v[i] as u32 - 0x30) as u128;
        acc = acc * 10 + dig;
        if acc > limit {
            proof {
                lemma_digits_prefix_le(d, i - lo + 1, d.len() as int);
                assert(d.take(d.len() as int) =~= d);
            }
            return None;
        }
        i += 1;
    }
    assert(d.take(hi - lo) =~= d);
    Some(acc)
}

/// `±digits × 10^scale` rounded up, for digits that start with a nonzero
/// one and a scale of at least 0, where that fits a `u32`.
fn ceil_scaled_up(negative: bool, ds: &Vec<char>, z: usize, sc: i128) -> (r: Option<u32>)
    requires
        z < ds.len(),
        all_digits(ds@),
        forall|i: int| 0 <= i < z ==> ds@[i] == '0',
        ds@[z as int] != '0',
        0 <= sc <= 0x1_0000_0000_0000_0000_0000,
    ensures
        r == fit_u32(parts_ceil(negative, ds@, sc as int)),
{
    let ghost sig = ds@.skip(z as int);
    let ghost dv = digits_value(ds@);
    let n = ds.len() - z;
    proof {
        lemma_sig_digits(ds@, z as int);
        lemma_pow10_ten();
        lemma_pow10_add(sc as nat, 0);
    }
    if n as i128 + sc > 10 {
        proof {
            lemma_pow10_add((n - 1) as nat, sc as nat);
            lemma_pow10_mono(10, (n - 1 + sc) as nat);
            assert(dv * pow10(sc as nat) >= pow10((n - 1) as nat) * pow10(sc as nat)) by (nonlinear_arith)
                requires
                    dv >= pow10((n - 1) as nat),
            ;
        }
        return None;
    }
    proof {
        lemma_pow10_mono(n as nat, 10);
        assert(ds@.subrange(z as int, ds.len() as int) =~= sig);
    }
    let d0 = match digits_within(ds, z, ds.len(), 10_000_000_000) {
        Some(d) => d,
        None => {
            return None;
        },
    };
    let mut val: u128 = d0;
    let mut i: i128 = 0;
    proof {
        lemma_pow10_add(0, 0);
    }
    while i < sc
        invariant
            0 <= i <= sc,
            n + sc <= 10,
            val == dv * pow10(i as nat),
            dv < pow10(n as nat),
            pow10(10) == 10_000_000_000,
        decreases sc - i,
    {
        proof {
            lemma_pow10_add(n as nat, (i + 1) as nat);
            lemma_pow10_add(i as nat, 0);
            lemma_pow10_mono((n + i + 1) as nat, 10);
            assert(pow10((i + 1) as nat) == 10 * pow10(i as nat));
            assert(dv * pow10(i as nat) * 10 < pow10(n as nat) * pow10((i + 1) as nat)) by (nonlinear_arith)
                requires
                    dv < pow10(n as nat),
                    pow10((i + 1) as nat) == 10 * pow10(i as nat),
                    pow10(i as nat) >= 1,
            ;
            assert(dv * pow10(i as nat) * 10 == dv * (10 * pow10(i as nat))) by (nonlinear_arith);
        }
        val = val * 10;
        i += 1;
    }
    if negative {
        proof {
            assert(dv * pow10(sc as nat) >= 1) by (nonlinear_arith)
                requires
                    dv >= 1,
                    pow10(sc as nat) >= 1,
            ;
        }
        return None;
    }
    if val <= u32::MAX as u128 {
        Some(val as u32)
    } else {
        None
    }
}

/// `±digits ÷ 10^j` rounded up, for digits that start with a nonzero one
/// and `j` at least 1, where that fits a `u32`.
fn ceil_scaled_down(negative: bool, ds: &Vec<char>, z: usize, j: u128) -> (r: Option<u32>)
    requires
        z < ds.len(),
        all_digits(ds@),
        forall|i: int| 0 <= i < z ==> ds@[i] == '0',
        ds@[z as int] != '0',
        j >= 1,
    ensures
        r == fit_u32(parts_ceil(negative, ds@, -(j as int))),
{
    let ghost sig = ds@.skip(z as int);
    let ghost dv = digits_value(ds@);
    let ghost jn = j as nat;
    let n = ds.len() - z;
    proof {
        lemma_sig_digits(ds@, z as int);
        lemma_pow10_ten();
    }
    if j >= n as u128 {
        proof {
            lemma_pow10_mono(n as nat, jn);
            vstd::arithmetic::div_mod::lemma_fundamental_div_mod_converse(dv as int, pow10(jn) as int, 0, dv as int);
        }
        return if negative {
            Some(0)
        } else {
            Some(1)
        };
    }
    let kk: usize = n - (j as usize);
    proof {
        lemma_digits_split(sig, kk as int);
        assert(sig.take(kk as int)[0] == sig[0]);
        assert(all_digits(sig.take(kk as int))) by {
            assert forall|i: int| 0 <= i < kk implies is_digit(#[trigger] sig.take(kk as int)[i]) by {
                assert(sig.take(kk as int)[i] == sig[i]);
            }
        }
        assert(all_digits(sig.skip(kk as int))) by {
            assert forall|i: int| 0 <= i < sig.len() - kk implies is_digit(#[trigger] sig.skip(kk as int)[i]) by {
                assert(sig.skip(kk as int)[i] == sig[kk + i]);
            }
        }
        lemma_digits_bound(sig.skip(kk as int));
        assert(sig.len() - kk == jn);
        vstd::arithmetic::div_mod::lemma_fundamental_div_mod_converse(
            dv as int,
            pow10(jn) as int,
            digits_value(sig.take(kk as int)) as int,
            digits_value(sig.skip(kk as int)) as int,
        );
        lemma_digits_zero(sig.skip(kk as int));
        assert(ds@.subrange(z as int, (z + kk) as int) =~= sig.take(kk as int));
        assert(ds@.subrange((z + kk) as int, ds.len() as int) =~= sig.skip(kk as int));
    }
    if kk > 10 {
        proof {
            lemma_digits_lead(sig.take(kk as int));
            lemma_pow10_mono(10, (kk - 1) as nat);
        }
        return None;
    }
    proof {
        lemma_digits_bound(sig.take(kk as int));
        lemma_pow10_mono(kk as nat, 10);
    }
    let q = match digits_within(ds, z, z + kk, 10_000_000_000) {
        Some(q) => q,
        None => {
            return None;
        },
    };
    let up: u128 = if has_nonzero_in(ds, z + kk, ds.len()) {
        1
    } else {
        0
    };
    if negative {
        return if q == 0 {
            Some(0)
        } else {
            None
        };
    }
    if q + up <= u32::MAX as u128 {
        Some((q + up) as u32)
    } else {
        None
    }
}

/// Leading zeros add nothing: the digits from the first nonzero one have
/// the value of all of them, between `10^(n-1)` and `10^n` for `n` of them.
pub(crate) proof fn lemma_sig_digits(ds: Seq<char>, z: int)
    requires
        0 <= z < ds.len(),
        all_digits(ds),
        forall|i: int| 0 <= i < z ==> ds[i] == '0',
        ds[z] != '0',
    ensures
        all_digits(ds.skip(z)),
        digits_value(ds) == digits_value(ds.skip(z)),
        digits_value(ds) >= pow10((ds.len() - z - 1) as nat),
        digits_value(ds) < pow10((ds.len() - z) as nat),
        digits_value(ds) >= 1,
{
    let sig = ds.skip(z);
    lemma_digits_split(ds, z);
    assert(all_digits(ds.take(z))) by {
        assert forall|i: int| 0 <= i < z implies is_digit(#[trigger] ds.take(z)[i]) by {
            assert(ds.take(z)[i] == ds[i]);
        }
    }
    assert(!has_nonzero(ds.take(z))) by {
        if has_nonzero(ds.take(z)) {
            let i = choose|i: int| 0 <= i < z && ds.take(z)[i] != '0';
            assert(ds.take(z)[i] == ds[i]);
        }
    }
    lemma_digits_zero(ds.take(z));
    assert(all_digits(sig)) by {
        assert forall|i: int| 0 <= i < sig.len() implies is_digit(#[trigger] sig[i]) by {
            assert(sig[i] == ds[z + i]);
        }
    }
    assert(sig[0] == ds[z]);
    lemma_digits_lead(sig);
    lemma_digits_bound(sig);
    lemma_pow10_add((sig.len() - 1) as nat, 0);
}

/// `±digits × 10^scale` rounded up, where that fits a `u32`; `big` tells
/// that the exponent was beyond what the digits can reach: far above 0
/// where `up` is set, far below minus their count where it is not.
fn ceil_of_parts(negative: bool, ds: &Vec<char>, sc: i128, big: bool, up: bool, Ghost(scale): Ghost<int>) -> (r: Option<u32>)
    requires
        all_digits(ds@),
        !big ==> sc == scale,
        !big ==> -0x1_0000_0000_0000_0000_0000 <= sc <= 0x1_0000_0000_0000_0000_0000,
        big && up ==> scale >= 12,
        big && !up ==> -scale > ds.len(),
    ensures
        r == fit_u32(parts_ceil(negative, ds@, scale)),
{
    let ghost dv = digits_value(ds@);
    let mut z: usize = 0;
    while z < ds.len() && ds[z] == '0'
        invariant
            0 <= z <= ds.len(),
            forall|i: int| 0 <= i < z ==> ds@[i] == '0',
        decreases ds.len() - z,
    {
        z += 1;
    }
    if z == ds.len() {
        proof {
            lemma_digits_zero(ds@);
            assert(dv == 0);
            if scale >= 0 {
                assert(0 * pow10(scale as nat) == 0);
            } else {
                lemma_pow10_add((-scale) as nat, 0);
                vstd::arithmetic::div_mod::lemma_fundamental_div_mod_converse(0, pow10((-scale) as nat) as int, 0, 0);
            }
        }
        return Some(0);
    }
    if big {
        proof {
            lemma_sig_digits(ds@, z as int);
            lemma_pow10_ten();
        }
        if up {
            proof {
                lemma_pow10_mono(10, scale as nat);
                assert(dv * pow10(scale as nat) >= pow10(scale as nat)) by (nonlinear_arith)
                    requires
                        dv >= 1,
                ;
            }
            return None;
        } else {
            proof {
                let jn = (-scale) as nat;
                lemma_pow10_mono((ds.len() - z) as nat, jn);
                vstd::arithmetic::div_mod::lemma_fundamental_div_mod_converse(dv as int, pow10(jn) as int, 0, dv as int);
            }
            return if negative {
                Some(0)
            } else {
                Some(1)
            };
        }
    }
    if sc >= 0 {
        ceil_scaled_up(negative, ds, z, sc)
    } else {
        ceil_scaled_down(negative, ds, z, (-sc) as u128)
    }
}

/// Below `2^k`, at most `k` binary digits.
proof fn lemma_bit_len_bound(n: nat, k: nat)
    requires
        n < pow2n(k),
    ensures
        bit_len(n) <= k,
    decreases k,
{
    if n > 0 {
        assert(k > 0);
        assert(pow2n(k) == 2 * pow2n((k - 1) as nat));
        lemma_bit_len_bound(n / 2, (k - 1) as nat);
    }
}

/// The number of binary digits of `w`.
fn bit_length(w: u32) -> (b: u32)
    ensures
        b == bit_len(w as nat),
        b <= 32,
{
    proof {
        reveal_with_fuel(pow2n, 33);
        assert(pow2n(32) == 0x1_0000_0000);
        lemma_bit_len_bound(w as nat, 32);
    }
    let mut x = w;
    let mut b: u32 = 0;
    while x > 0
        invariant
            b + bit_len(x as nat) == bit_len(w as nat),
            bit_len(w as nat) <= 32,
        decreases x,
    {
        assert(bit_len(x as nat) == 1 + bit_len((x / 2) as nat));
        x = x / 2;
        b += 1;
    }
    b
}

proof fn lemma_pow2n_pos(k: nat)
    ensures
        pow2n(k) >= 1,
    decreases k,
{
    if k > 0 {
        lemma_pow2n_pos((k - 1) as nat);
    }
}

/// Eight is less than ten.
proof fn lemma_pow2n_thirds(k: nat)
    ensures
        pow2n(3 * k) <= pow10(k),
    decreases k,
{
    if k > 0 {
        lemma_pow2n_thirds((k - 1) as nat);
        let a = pow2n((3 * (k - 1)) as nat);
        assert(pow2n(3 * k) == 2 * pow2n((3 * k - 1) as nat));
        assert(pow2n((3 * k - 1) as nat) == 2 * pow2n((3 * k - 2) as nat));
        assert(pow2n((3 * k - 2) as nat) == 2 * a);
        assert(pow10(k) == 10 * pow10((k - 1) as nat));
    }
}

proof fn lemma_pow2_small()
    ensures
        pow2n(1075) < pow10(359),
        pow2n(54) >= 2,
{
    lemma_pow2n_thirds(358);
    assert(3 * 358 == 1074nat);
    lemma_pow10_add(358, 0);
    assert(pow2n(1075) == 2 * pow2n(1074));
    assert(pow10(359) == 10 * pow10(358));
    lemma_pow2n_pos(53);
    assert(pow2n(54) == 2 * pow2n(53));
}

/// `±digits × 10^scale` read as an `f64` and rounded up, where that fits a
/// `u32`; `big` tells that the exponent was beyond what the digits can
/// reach: far above 0 where `up` is set, far below minus their count where
/// it is not.
fn f64_ceil_of_parts(negative: bool, ds: &Vec<char>, sc: i128, big: bool, up: bool, Ghost(scale): Ghost<int>) -> (r: Option<u32>)
    requires
        all_digits(ds@),
        !big ==> sc == scale,
        !big ==> -0x1_0000_0000_0000_0000_0000 <= sc <= 0x1_0000_0000_0000_0000_0000,
        big && up ==> scale >= 12,
        big && !up ==> -scale > ds.len() + 400,
    ensures
        r == f64_ceil_u32(negative, ds@, scale),
{
    let n = ds.len();
    let ghost m = (-scale) as nat;
    if (big && up) || (!big && sc >= 0) {
        return ceil_of_parts(negative, ds, sc, big, up, Ghost(scale));
    }
    assert(scale < 0);
    proof {
        lemma_digits_zero(ds@);
        lemma_digits_bound(ds@);
        lemma_pow2_small();
    }
    if big || -sc > n as i128 {
        // Every digit is in the fraction.
        assert(m > n);
        assert(ds@.subrange(0, n as int) =~= ds@);
        if !has_nonzero_in(ds, 0, n) {
            return ceil_of_parts(negative, ds, sc, big, up, Ghost(scale));
        }
        let ghost f = digits_value(ds@);
        if negative {
            proof {
                lemma_pow10_mono(n as nat, (m - 1) as nat);
                assert(pow10(m) == 10 * pow10((m - 1) as nat));
                assert((pow10(m) - f) * pow2n(54) > pow10(m)) by (nonlinear_arith)
                    requires
                        f < pow10((m - 1) as nat),
                        pow10(m) == 10 * pow10((m - 1) as nat),
                        pow2n(54) >= 2,
                ;
            }
            return Some(0);
        }
        if big || -sc >= n as i128 + 359 {
            proof {
                lemma_pow10_add(n as nat, 359);
                lemma_pow10_mono((n + 359) as nat, m);
                assert(f * pow2n(1075) < pow10(n as nat) * pow10(359)) by (nonlinear_arith)
                    requires
                        f < pow10(n as nat),
                        pow2n(1075) < pow10(359),
                ;
            }
            return Some(0);
        }
        let mm = (-sc) as u128;
        assert(mm == m);
        return if times_pow2_le_pow10(ds, 0, n, 1075, mm) {
            Some(0)
        } else {
            Some(1)
        };
    }
    let mm = (-sc) as usize;
    assert(mm == m);
    let k = n - mm;
    proof {
        assert(ds@.subrange(0, k as int) =~= ds@.take(k as int));
        assert(ds@.subrange(k as int, n as int) =~= ds@.skip(k as int));
        assert(all_digits(ds@.take(k as int))) by {
            assert forall|i: int| 0 <= i < k implies is_digit(#[trigger] ds@.take(k as int)[i]) by {
                assert(ds@.take(k as int)[i] == ds@[i]);
            }
        }
        assert(all_digits(ds@.skip(k as int))) by {
            assert forall|i: int| 0 <= i < n - k implies is_digit(#[trigger] ds@.skip(k as int)[i]) by {
                assert(ds@.skip(k as int)[i] == ds@[k + i]);
            }
        }
        lemma_digits_zero(ds@.take(k as int));
        lemma_digits_zero(ds@.skip(k as int));
    }
    if !has_nonzero_in(ds, k, n) {
        return ceil_of_parts(negative, ds, sc, big, up, Ghost(scale));
    }
    if negative {
        if has_nonzero_in(ds, 0, k) {
            return None;
        }
        return if complement_times_pow2_le_pow10(ds, k, n, 54, mm) {
            None
        } else {
            Some(0)
        };
    }
    let w = match digits_within(ds, 0, k, 0xFFFF_FFFF) {
        Some(w) => w as u32,
        None => {
            return None;
        },
    };
    let p: u32 = if w == 0 {
        1075
    } else {
        54 - bit_length(w)
    };
    if times_pow2_le_pow10(ds, k, n, p, mm as u128) {
        Some(w)
    } else if w < 0xFFFF_FFFF {
        Some(w + 1)
    } else {
        None
    }
}

/// The digits of a mantissa without its point, and how many follow it.
fn mantissa_digits(m: &Vec<char>) -> (r: (Vec<char>, usize))
    requires
        is_mantissa(m@),
    ensures
        ({
            let d = sep_pos(m@, seq!['.'], false);
            let frac = if d < m@.len() {
                m@.skip((d + 1) as int)
            } else {
                seq![]
            };
            &&& r.0@ == m@.take(d as int) + frac
            &&& r.1 == frac.len()
            &&& all_digits(r.0@)
            &&& r.0@.len() <= m@.len()
        }),
{
    let mut dot: Vec<char> = Vec::new();
    dot.push('.');
    assert(dot@ =~= seq!['.']);
    assert(m@.skip(0) =~= m@);
    let dp = find_sep(m, 0, &dot, false);
    let mut ds = subvec(m, 0, dp);
    let frac = if dp < m.len() {
        subvec(m, dp + 1, m.len())
    } else {
        Vec::new()
    };
    assert(dp < m.len() ==> frac@ =~= m@.skip(dp + 1));
    assert(dp >= m.len() ==> frac@ =~= Seq::<char>::empty());
    let ghost whole = ds@;
    assert(whole =~= m@.take(dp as int));
    let mut k: usize = 0;
    while k < frac.len()
        invariant
            0 <= k <= frac.len(),
            ds@ == whole + frac@.take(k as int),
        decreases frac.len() - k,
    {
        ds.push(frac[k]);
        assert(frac@.take(k + 1) =~= frac@.take(k as int).push(frac@[k as int]));
        k += 1;
    }
    assert(frac@.take(frac.len() as int) =~= frac@);
    proof {
        if dp >= m.len() {
            assert(m@.take(dp as int) =~= m@);
        }
        assert forall|i: int| 0 <= i < ds@.len() implies is_digit(#[trigger] ds@[i]) by {
            if i < whole.len() {
                assert(whole[i] == m@.take(dp as int)[i]);
            } else {
                assert(frac@[i - whole.len()] == m@.skip(dp + 1)[i - whole.len()]);
            }
        }
    }
    let f = frac.len();
    (ds, f)
}

/// An exponent `[+-]digits`: whether it is negative, and its magnitude
/// where that is at most `cap` (`big` where it is more).
fn exponent_of(x: &Vec<char>, cap: u128) -> (r: Option<(bool, u128, bool)>)
    requires
        cap <= 0x1_0000_0000_0000_0000_0000_0000,
    ensures
        r is Some == is_exponent(x@),
        r matches Some((neg, val, big)) ==> {
            let mag = digits_value(unsigned(x@));
            &&& int_text(x@) == Some(if neg {
                -(mag as int)
            } else {
                mag as int
            })
            &&& big == (mag > cap)
            &&& !big ==> val == mag
            &&& val <= cap
        },
{
    let lo2 = unsigned_from(x);
    assert(x@.subrange(lo2 as int, x.len() as int) =~= x@.skip(lo2 as int));
    if !(x.len() - lo2 > 0 && all_digits_in(x, lo2, x.len())) {
        return None;
    }
    let neg = x[0] == '-';
    proof {
        if x@[0] == '+' {
            assert(unsigned(x@) == x@.drop_first());
        }
    }
    match digits_within(x, lo2, x.len(), cap) {
        Some(val) => Some((neg, val, false)),
        None => Some((neg, 0, true)),
    }
}

/// A finite float text read as an `f64` and rounded up, where that fits a
/// `u32`.
fn float_ceil_u32(v: &Vec<char>) -> (r: Option<u32>)
    ensures
        r == match float_parts(v@) {
            Some((negative, ds, scale)) => f64_ceil_u32(negative, ds, scale),
            None => None,
        },
{
    let negative = v.len() > 0 && v[0] == '-';
    let lo = unsigned_from(v);
    let t = subvec(v, lo, v.len());
    assert(t@ =~= unsigned(v@));
    let mut es: Vec<char> = Vec::new();
    es.push('e');
    es.push('E');
    assert(es@ =~= seq!['e', 'E']);
    assert(t@.skip(0) =~= t@);
    let e = find_sep(&t, 0, &es, false);
    let m = subvec(&t, 0, e);
    assert(m@ =~= t@.take(e as int));
    if !is_mantissa_chars(&m) {
        return None;
    }
    let cap: u128 = v.len() as u128 + 412;
    let (exp_neg, exp_val, big) = if e < t.len() {
        let x = subvec(&t, e + 1, t.len());
        assert(x@ =~= t@.skip(e + 1));
        match exponent_of(&x, cap) {
            None => {
                return None;
            },
            Some(p) => p,
        }
    } else {
        (false, 0, false)
    };
    let ghost exp: int = if e >= t.len() {
        0
    } else {
        int_text(t@.skip(e + 1)).unwrap()
    };
    let (ds, f) = mantissa_digits(&m);
    let ghost scale: int = exp - f;
    assert(float_parts(v@) == Some((negative, ds@, scale)));
    assert(f <= v.len());
    let sc: i128 = if exp_neg {
        -(exp_val as i128) - (f as i128)
    } else {
        exp_val as i128 - f as i128
    };
    f64_ceil_of_parts(negative, &ds, sc, big, !exp_neg, Ghost(scale))
}

/// An integer that may be written as any number, rounded up: the text as a
/// `u32`, else as a number of `f64` syntax rounded up, where that fits.
pub fn parse_maybe_float_int(v: &Vec<char>) -> (r: Option<u32>)
    ensures
        r == maybe_float_int(v@),
{
    if let Some(n) = parse_u32(v) {
        return Some(n);
    }
    float_ceil_u32(v)
}

/// A text without its leading `+` or `-`, where it has one.
pub open spec fn unsigned(s: Seq<char>) -> Seq<char> {
    if s.len() > 0 && (s[0] == '+' || s[0] == '-') {
        s.drop_first()
    } else {
        s
    }
}

/// Whether `a` is the lowercase letter `b` or its uppercase form.
pub open spec fn same_letter(a: char, b: char) -> bool {
    a == b || (a as u32) + 32 == (b as u32)
}

/// Whether `t` spells the lowercase word `w`, in any case.
pub open spec fn spells(t: Seq<char>, w: Seq<char>) -> bool {
    t.len() == w.len() && forall|i: int| 0 <= i < t.len() ==> same_letter(#[trigger] t[i], w[i])
}

/// The digits before and after an optional `.`, with at least one digit.
pub open spec fn is_mantissa(m: Seq<char>) -> bool {
    let d = sep_pos(m, seq!['.'], false);
    if d >= m.len() {
        m.len() > 0 && all_digits(m)
    } else {
        all_digits(m.take(d as int)) && all_digits(m.skip((d + 1) as int)) && (d > 0 || m.len() > d + 1)
    }
}

/// Digits after an optional sign.
pub open spec fn is_exponent(x: Seq<char>) -> bool {
    let y = unsigned(x);
    y.len() > 0 && all_digits(y)
}

/// Whether `str::parse::<f64>` accepts the text: an optional sign, then
/// `inf`, `infinity` or `nan` in any case, or a decimal number with an
/// optional exponent after `e` or `E`.
pub open spec fn is_float_text(s: Seq<char>) -> bool {
    let t = unsigned(s);
    let e = sep_pos(t, seq!['e', 'E'], false);
    ||| spells(t, "inf"@)
    ||| spells(t, "infinity"@)
    ||| spells(t, "nan"@)
    ||| is_mantissa(t.take(e as int)) && (e >= t.len() || is_exponent(t.skip((e + 1) as int)))
}

fn unsigned_from(v: &Vec<char>) -> (r: usize)
    ensures
        r <= v.len(),
        v@.skip(r as int) == unsigned(v@),
{
    if v.len() > 0 && (v[0] == '+' || v[0] == '-') {
        assert(v@.skip(1) =~= v@.drop_first());
        1
    } else {
        assert(v@.skip(0) =~= v@);
        0
    }
}

fn spells_chars(v: &Vec<char>, lo: usize, w: &str) -> (r: bool)
    requires
        lo <= v.len(),
    ensures
        r == spells(v@.skip(lo as int), w@),
{
    let wv = crate::chars::chars_of(w);
    if v.len() - lo != wv.len() {
        return false;
    }
    let mut i: usize = 0;
    while i < wv.len()
        invariant
            0 <= i <= wv.len(),
            v.len() - lo == wv.len(),
            wv@ == w@,
            forall|j: int| 0 <= j < i ==> same_letter(#[trigger] v@.skip(lo as int)[j], wv@[j]),
        decreases wv.len() - i,
    {
        let a = v[lo + i];
        let b = wv[i];
        assert(v@.skip(lo as int)[i as int] == a);
        if !(a == b || ((b as u32) >= 32 && (a as u32) == (b as u32) - 32)) {
            return false;
        }
        i += 1;
    }
    true
}

fn is_mantissa_chars(m: &Vec<char>) -> (r: bool)
    ensures
        r == is_mantissa(m@),
{
    let mut dot: Vec<char> = Vec::new();
    dot.push('.');
    assert(dot@ =~= seq!['.']);
    let d = find_sep(m, 0, &dot, false);
    assert(m@.skip(0) =~= m@);
    if d >= m.len() {
        assert(m@.subrange(0, m.len() as int) =~= m@);
        m.len() > 0 && all_digits_in(m, 0, m.len())
    } else {
        assert(m@.subrange(0, d as int) =~= m@.take(d as int));
        assert(m@.subrange(d + 1, m.len() as int) =~= m@.skip(d + 1));
        all_digits_in(m, 0, d) && all_digits_in(m, d + 1, m.len()) && (d > 0 || m.len() > d + 1)
    }
}

/// Whether `str::parse::<f64>` accepts the text.
#[verifier::rlimit(40)]
pub fn is_float_chars(v: &Vec<char>) -> (r: bool)
    ensures
        r == is_float_text(v@),
{
    let lo = unsigned_from(v);
    let t = subvec(v, lo, v.len());
    assert(t@ =~= unsigned(v@));
    assert(t@.skip(0) =~= t@);
    if spells_chars(&t, 0, "inf") || spells_chars(&t, 0, "infinity") || spells_chars(&t, 0, "nan") {
        return true;
    }
    let mut es: Vec<char> = Vec::new();
    es.push('e');
    es.push('E');
    assert(es@ =~= seq!['e', 'E']);
    let e = find_sep(&t, 0, &es, false);
    let m = subvec(&t, 0, e);
    assert(m@ =~= t@.take(e as int));
    if !is_mantissa_chars(&m) {
        return false;
    }
    if e >= t.len() {
        return true;
    }
    let x = subvec(&t, e + 1, t.len());
    assert(x@ =~= t@.skip(e + 1));
    let lo2 = unsigned_from(&x);
    assert(x@.subrange(lo2 as int, x.len() as int) =~= x@.skip(lo2 as int));
    x.len() - lo2 > 0 && all_digits_in(&x, lo2, x.len())
}

/// Whether a text of `str::parse::<f64>` syntax reads as a double above 1:
/// a positive infinity, or a finite number whose double rounds up past 1.
/// (The double of `1 + 2^-53`, half way to the next one, is 1.)
pub open spec fn f64_above_one(s: Seq<char>) -> bool {
    let t = unsigned(s);
    let negative = s.len() > 0 && s[0] == '-';
    if spells(t, "inf"@) || spells(t, "infinity"@) {
        !negative
    } else if spells(t, "nan"@) {
        false
    } else {
        match float_parts(s) {
            Some((neg, ds, scale)) => !neg && match f64_ceil_u32(neg, ds, scale) {
                Some(c) => c >= 2,
                None => true,
            },
            None => false,
        }
    }
}

/// Whether the text reads as a double above 1.
pub fn f64_above_one_chars(v: &Vec<char>) -> (r: bool)
    ensures
        r == f64_above_one(v@),
{
    let negative = v.len() > 0 && v[0] == '-';
    let lo = unsigned_from(v);
    let t = subvec(v, lo, v.len());
    assert(t@ =~= unsigned(v@));
    assert(t@.skip(0) =~= t@);
    if spells_chars(&t, 0, "inf") || spells_chars(&t, 0, "infinity") {
        return !negative;
    }
    if spells_chars(&t, 0, "nan") {
        return false;
    }
    if negative {
        return false;
    }
    match float_ceil_u32(v) {
        Some(c) => c >= 2,
        None => is_float_chars(v),
    }
}

/// The character of a decimal digit.
pub open spec fn digit_char(d: nat) -> char {
    if d == 0 {
        '0'
    } else if d == 1 {
        '1'
    } else if d == 2 {
        '2'
    } else if d == 3 {
        '3'
    } else if d == 4 {
        '4'
    } else if d == 5 {
        '5'
    } else if d == 6 {
        '6'
    } else if d == 7 {
        '7'
    } else if d == 8 {
        '8'
    } else {
        '9'
    }
}

/// A number in decimal, as `Display` writes it.
pub open spec fn decimal_text(n: nat) -> Seq<char>
    decreases n,
{
    if n < 10 {
        seq![digit_char(n)]
    } else {
        decimal_text(n / 10).push(digit_char(n % 10))
    }
}

fn digit_of(d: u64) -> (c: char)
    requires
        d < 10,
    ensures
        c == digit_char(d as nat),
{
    if d == 0 {
        '0'
    } else if d == 1 {
        '1'
    } else if d == 2 {
        '2'
    } else if d == 3 {
        '3'
    } else if d == 4 {
        '4'
    } else if d == 5 {
        '5'
    } else if d == 6 {
        '6'
    } else if d == 7 {
        '7'
    } else if d == 8 {
        '8'
    } else {
        '9'
    }
}

/// A number in decimal.
pub fn decimal(n: u64) -> (r: Vec<char>)
    ensures
        r@ == decimal_text(n as nat),
    decreases n,
{
    if n < 10 {
        let mut v: Vec<char> = Vec::new();
        v.push(digit_of(n));
        assert(v@ =~= seq![digit_char(n as nat)]);
        v
    } else {
        let mut v = decimal(n / 10);
        v.push(digit_of(n % 10));
        v
    }
}

} // verus!
