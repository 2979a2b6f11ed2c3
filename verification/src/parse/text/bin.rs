//! `.strings.bin` tables of Medieval II: a header, then pairs of
//! length-prefixed UTF-16 strings.
use vstd::prelude::*;

use crate::chars::{lowercase, to_lowercase};
use crate::parse::ParseError;

verus! {

/// Whether a code unit is a leading (high) surrogate.
pub open spec fn is_high_surrogate(u: u16) -> bool {
    0xD800 <= u <= 0xDBFF
}

/// Whether a code unit is a trailing (low) surrogate.
pub open spec fn is_low_surrogate(u: u16) -> bool {
    0xDC00 <= u <= 0xDFFF
}

/// The scalar value that a surrogate pair encodes.
pub open spec fn pair_value(hi: u16, lo: u16) -> int {
    0x10000 + (hi - 0xD800) * 0x400 + (lo - 0xDC00)
}

/// UTF-16 decoded as `String::from_utf16_lossy` does: a unit that is not a
/// surrogate is its own character, a leading surrogate followed by a
/// trailing one is the character the pair encodes, and any other surrogate
/// is U+FFFD.
pub open spec fn utf16_lossy(units: Seq<u16>) -> Seq<char>
    decreases units.len(),
{
    if units.len() == 0 {
        seq![]
    } else if !(0xD800 <= units[0] <= 0xDFFF) {
        seq![(units[0] as u32) as char] + utf16_lossy(units.skip(1))
    } else if is_high_surrogate(units[0]) && units.len() >= 2 && is_low_surrogate(units[1]) {
        seq![pair_value(units[0], units[1]) as char] + utf16_lossy(units.skip(2))
    } else {
        seq!['\u{FFFD}'] + utf16_lossy(units.skip(1))
    }
}

/// `char::from_u32`: the character with the scalar value, where the value
/// is one (at most 0x10FFFF and not a surrogate).
#[verifier::external_body]
fn char_from_u32(u: u32) -> (c: Option<char>)
    ensures
        (c is Some) == (u <= 0x10FFFF && !(0xD800 <= u <= 0xDFFF)),
        c matches Some(x) ==> x == (u as char),
{
    char::from_u32(u)
}

/// The characters of UTF-16 code units, decoded as `utf16_lossy` says.
pub fn decode_utf16(units: &Vec<u16>) -> (r: Vec<char>)
    ensures
        r@ == utf16_lossy(units@),
{
    let mut r: Vec<char> = Vec::new();
    let mut i: usize = 0;
    assert(units@.skip(0) =~= units@);
    while i < units.len()
        invariant
            0 <= i <= units.len(),
            utf16_lossy(units@) == r@ + utf16_lossy(units@.skip(i as int)),
        decreases units.len() - i,
    {
        let ghost rest = units@.skip(i as int);
        let u = units[i];
        assert(rest[0] == u);
        if u < 0xD800 || u > 0xDFFF {
            let c = char_from_u32(u as u32).unwrap();
            assert(rest.skip(1) =~= units@.skip(i + 1));
            r.push(c);
            assert(utf16_lossy(units@) == r@ + utf16_lossy(units@.skip(i + 1)));
            i += 1;
        } else if u <= 0xDBFF && i + 1 < units.len() && units[i + 1] >= 0xDC00 && units[i + 1] <= 0xDFFF {
            let lo = units[i + 1];
            assert(rest[1] == lo);
            let v: u32 = 0x10000 + (u as u32 - 0xD800) * 0x400 + (lo as u32 - 0xDC00);
            let c = char_from_u32(v).unwrap();
            assert(rest.skip(2) =~= units@.skip(i + 2));
            r.push(c);
            assert(utf16_lossy(units@) == r@ + utf16_lossy(units@.skip(i + 2)));
            i += 2;
        } else {
            assert(rest.skip(1) =~= units@.skip(i + 1));
            r.push('\u{FFFD}');
            assert(utf16_lossy(units@) == r@ + utf16_lossy(units@.skip(i + 1)));
            i += 1;
        }
    }
    assert(units@.skip(units.len() as int) =~= Seq::<u16>::empty());
    r
}

/// The little-endian `u16` at `i`.
pub open spec fn u16_le(b: Seq<u8>, i: int) -> nat {
    b[i] as nat + 256 * (b[i + 1] as nat)
}

/// The little-endian `u32` at `i`.
pub open spec fn u32_le(b: Seq<u8>, i: int) -> nat {
    u16_le(b, i) + 65536 * u16_le(b, i + 2)
}

/// The little-endian UTF-16 code units of the bytes.
pub open spec fn units_of(b: Seq<u8>) -> Seq<u16> {
    Seq::new(b.len() / 2, |i: int| u16_le(b, 2 * i) as u16)
}

/// A string at `p`: a `u16` count of code units, then the units; the
/// decoded string and the position after it.
pub open spec fn read_utf16(b: Seq<u8>, p: nat) -> Result<(Seq<char>, nat), ParseError> {
    if p + 2 > b.len() {
        Err(ParseError::Missing("bytes"))
    } else {
        let end = p + 2 + 2 * u16_le(b, p as int);
        if end > b.len() {
            Err(ParseError::Missing("bytes"))
        } else {
            Ok((utf16_lossy(units_of(b.subrange((p + 2) as int, end as int))), end))
        }
    }
}

/// `n` pairs of strings from `p` on, each tag lowercased; and the position
/// after them.
pub open spec fn read_pairs(b: Seq<u8>, p: nat, n: nat) -> Result<
    (Seq<(Seq<char>, Seq<char>)>, nat),
    ParseError,
>
    decreases n,
{
    if n == 0 {
        Ok((seq![], p))
    } else {
        match read_pairs(b, p, (n - 1) as nat) {
            Err(e) => Err(e),
            Ok((acc, q)) => match read_utf16(b, q) {
                Err(e) => Err(e),
                Ok((tag, q2)) => match read_utf16(b, q2) {
                    Err(e) => Err(e),
                    Ok((value, q3)) => Ok((acc.push((lowercase(tag), value)), q3)),
                },
            },
        }
    }
}

/// The tagged strings of a `.strings.bin` table: a `u16` type and a `u16`
/// magic number (refused only where the type is not 2 and the magic number
/// not `0x800`), a `u32` count, then the pairs.
pub open spec fn bin_file(b: Seq<u8>) -> Result<Seq<(Seq<char>, Seq<char>)>, ParseError> {
    if b.len() < 4 {
        Err(ParseError::Missing("bytes"))
    } else if u16_le(b, 0) != 2 && u16_le(b, 2) != 0x800 {
        Err(ParseError::Invalid("strings.bin"))
    } else if b.len() < 8 {
        Err(ParseError::Missing("bytes"))
    } else {
        match read_pairs(b, 8, u32_le(b, 4)) {
            Ok((ps, _)) => Ok(ps),
            Err(e) => Err(e),
        }
    }
}

proof fn lemma_pairs_err(b: Seq<u8>, p: nat, k: nat, n: nat)
    requires
        k <= n,
        read_pairs(b, p, k) is Err,
    ensures
        read_pairs(b, p, n) == read_pairs(b, p, k),
    decreases n - k,
{
    if k < n {
        lemma_pairs_err(b, p, k, (n - 1) as nat);
    }
}

pub fn read_u16(b: &[u8], p: usize) -> (r: Option<u16>)
    ensures
        r == if p + 2 <= b@.len() {
            Some(u16_le(b@, p as int) as u16)
        } else {
            None::<u16>
        },
{
    if p < b.len() && b.len() - p >= 2 {
        Some(b[p] as u16 + 256 * (b[p + 1] as u16))
    } else {
        None
    }
}

pub fn read_u32(b: &[u8], p: usize) -> (r: Option<u32>)
    ensures
        r == if p + 4 <= b@.len() {
            Some(u32_le(b@, p as int) as u32)
        } else {
            None::<u32>
        },
{
    if p < b.len() && b.len() - p >= 4 {
        let lo = b[p] as u32 + 256 * (b[p + 1] as u32);
        let hi = b[p + 2] as u32 + 256 * (b[p + 3] as u32);
        Some(lo + 65536 * hi)
    } else {
        None
    }
}

fn read_string(b: &[u8], p: usize) -> (r: Result<(String, usize), ParseError>)
    ensures
        match (r, read_utf16(b@, p as nat)) {
            (Ok((s, q)), Ok((t, q2))) => s@ == t && q == q2,
            (Err(e), Err(f)) => e == f,
            _ => false,
        },
{
    let n = match read_u16(b, p) {
        None => return Err(ParseError::Missing("bytes")),
        Some(n) => n as usize,
    };
    if b.len() - (p + 2) < 2 * n {
        return Err(ParseError::Missing("bytes"));
    }
    let end = p + 2 + 2 * n;
    let mut units: Vec<u16> = Vec::new();
    let mut i: usize = 0;
    let ghost sub = b@.subrange(p + 2, end as int);
    while i < n
        invariant
            0 <= i <= n,
            p + 2 + 2 * n <= b@.len(),
            end == p + 2 + 2 * n,
            sub == b@.subrange(p + 2, end as int),
            units@ =~= units_of(sub).take(i as int),
        decreases n - i,
    {
        let at = p + 2 + 2 * i;
        let u = b[at] as u16 + 256 * (b[at + 1] as u16);
        assert(sub[2 * i] == b@[at as int] && sub[2 * i + 1] == b@[at + 1]);
        let ghost old = units@;
        units.push(u);
        assert(units_of(sub).take(i + 1) =~= old.push(u));
        i += 1;
    }
    assert(units@ =~= units_of(sub));
    let cs = decode_utf16(&units);
    Ok((crate::chars::string_of(&cs), end))
}

/// Reads a `.strings.bin` table.
pub fn parse(data: &[u8]) -> (res: Result<Vec<(String, String)>, ParseError>)
    ensures
        crate::parse::text::txt::res_pairs(res) == bin_file(data@),
{
    let typ = match read_u16(data, 0) {
        None => return Err(ParseError::Missing("bytes")),
        Some(t) => t,
    };
    let magic = match read_u16(data, 2) {
        None => return Err(ParseError::Missing("bytes")),
        Some(m) => m,
    };
    if typ != 2 && magic != 0x800 {
        return Err(ParseError::Invalid("strings.bin"));
    }
    let count = match read_u32(data, 4) {
        None => return Err(ParseError::Missing("bytes")),
        Some(c) => c,
    };
    let mut out: Vec<(String, String)> = Vec::new();
    let mut pos: usize = 8;
    let mut i: u32 = 0;
    assert(out.deep_view() =~= Seq::<(Seq<char>, Seq<char>)>::empty());
    while i < count
        invariant
            0 <= i <= count,
            count == u32_le(data@, 4),
            data@.len() >= 8,
            !(u16_le(data@, 0) != 2 && u16_le(data@, 2) != 0x800),
            read_pairs(data@, 8, i as nat) == Ok::<_, ParseError>((out.deep_view(), pos as nat)),
        decreases count - i,
    {
        let (tag, q) = match read_string(data, pos) {
            Err(e) => {
                proof {
                    lemma_pairs_err(data@, 8, (i + 1) as nat, count as nat);
                }
                return Err(e);
            },
            Ok(x) => x,
        };
        let (value, q2) = match read_string(data, q) {
            Err(e) => {
                proof {
                    lemma_pairs_err(data@, 8, (i + 1) as nat, count as nat);
                }
                return Err(e);
            },
            Ok(x) => x,
        };
        let tag = to_lowercase(tag.as_str());
        let ghost old = out.deep_view();
        out.push((tag, value));
        assert(out.deep_view() =~= old.push((tag@, value@)));
        pos = q2;
        i += 1;
    }
    Ok(out)
}

} // verus!
