//! The text files of a mod: `.txt` tables of tagged strings, and the
//! `.strings.bin` files of Medieval II.
use vstd::prelude::*;

use crate::parse::manifest::ParserMode;
use crate::parse::ParseError;

pub mod bin;
pub mod txt;

verus! {

/// Reads a `.txt` table of tagged strings (see [`txt::parse`]).
pub fn parse_txt(data: &str, _mode: ParserMode) -> (res: Result<Vec<(String, String)>, ParseError>)
    requires
        txt::txt_lead(data@),
    ensures
        txt::res_pairs(res) == txt::txt_file(data@),
{
    txt::parse(data)
}

/// Reads a `.strings.bin` table (see [`bin::parse`]).
pub fn parse_bin(data: &[u8], _mode: ParserMode) -> (res: Result<Vec<(String, String)>, ParseError>)
    ensures
        txt::res_pairs(res) == bin::bin_file(data@),
{
    bin::parse(data)
}

/// UTF-16LE bytes decoded as `String::from_utf16le_lossy` does: their code
/// units decoded, then U+FFFD for an odd last byte.
pub open spec fn utf16le_lossy(b: Seq<u8>) -> Seq<char> {
    bin::utf16_lossy(bin::units_of(b)) + if b.len() % 2 == 1 {
        seq!['\u{FFFD}']
    } else {
        seq![]
    }
}

/// The text without its byte order marks (U+FEFF).
pub open spec fn without_bom(s: Seq<char>) -> Seq<char>
    decreases s.len(),
{
    if s.len() == 0 {
        seq![]
    } else {
        let p = without_bom(s.drop_last());
        if s.last() == '\u{FEFF}' {
            p
        } else {
            p.push(s.last())
        }
    }
}

/// The text of a `.txt` table's bytes: UTF-16LE, decoded with invalid data
/// replaced, and without byte order marks.
pub fn decode_text_file(data: &[u8]) -> (s: String)
    ensures
        s@ == without_bom(utf16le_lossy(data@)),
{
    let n = data.len() / 2;
    let mut units: Vec<u16> = Vec::new();
    let mut i: usize = 0;
    while i < n
        invariant
            0 <= i <= n,
            n == data@.len() / 2,
            units@ =~= bin::units_of(data@).take(i as int),
        decreases n - i,
    {
        assert(2 * i + 1 < data@.len()) by (nonlinear_arith)
            requires
                i < n,
                n == data@.len() / 2,
        ;
        let len = data.len();
        assert(2 * i + 1 < len);
        let j = i + i;
        let u = data[j] as u16 + 256 * (data[j + 1] as u16);
        let ghost before = units@;
        units.push(u);
        assert(bin::units_of(data@).take(i + 1) =~= before.push(u));
        i += 1;
    }
    assert(units@ =~= bin::units_of(data@));
    let mut cs = bin::decode_utf16(&units);
    if data.len() % 2 == 1 {
        cs.push('\u{FFFD}');
    }
    let ghost all = cs@;
    assert(all == utf16le_lossy(data@));
    let mut out: Vec<char> = Vec::new();
    let mut k: usize = 0;
    assert(all.take(0) =~= Seq::<char>::empty());
    while k < cs.len()
        invariant
            0 <= k <= cs.len(),
            all == cs@,
            out@ == without_bom(all.take(k as int)),
        decreases cs.len() - k,
    {
        assert(all.take(k + 1).drop_last() =~= all.take(k as int));
        assert(all.take(k + 1).last() == all[k as int]);
        if cs[k] != '\u{FEFF}' {
            out.push(cs[k]);
        }
        k += 1;
    }
    assert(all.take(cs.len() as int) =~= all);
    crate::chars::string_of(&out)
}

} // verus!
