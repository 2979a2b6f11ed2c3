//! `.sd` sprite sheets: the pictures of a page file that the game's
//! interface cuts out by name.
use vstd::prelude::*;
use vstd::utf8::{decode_utf8, valid_utf8};

use crate::parse::manifest::ParserMode;
use crate::parse::text::bin::{read_u16, read_u32, u16_le, u32_le};
use crate::parse::ParseError;

verus! {

/// A picture cut out of a page: the page's file and the picture's edges.
#[derive(Debug)]
pub struct Sprite {
    pub file: String,
    pub top: u16,
    pub left: u16,
    pub bottom: u16,
    pub right: u16,
}

pub struct SpriteView {
    pub file: Seq<char>,
    pub top: u16,
    pub left: u16,
    pub bottom: u16,
    pub right: u16,
}

pub open spec fn sprite_view(s: Sprite) -> SpriteView {
    SpriteView { file: s.file@, top: s.top, left: s.left, bottom: s.bottom, right: s.right }
}

pub open spec fn sprites_view(v: Seq<(String, Sprite)>) -> Seq<(Seq<char>, SpriteView)> {
    Seq::new(v.len(), |i: int| (v[i].0@, sprite_view(v[i].1)))
}

/// `String::from_utf8`: the text that the bytes encode, where they are
/// UTF-8.
#[verifier::external_body]
fn string_from_utf8(b: Vec<u8>) -> (r: Option<String>)
    ensures
        r is Some == valid_utf8(b@),
        r matches Some(s) ==> s@ == decode_utf8(b@),
{
    String::from_utf8(b).ok()
}

/// A string at `p`: a `u32` length, the UTF-8 bytes, and where `nul` is
/// set a zero byte after them; the text and the position after it.
pub open spec fn sd_string(b: Seq<u8>, p: nat, nul: bool) -> Result<(Seq<char>, nat), ParseError> {
    if p + 4 > b.len() {
        Err(ParseError::Missing("bytes"))
    } else {
        let end = p + 4 + u32_le(b, p as int);
        if end > b.len() || (nul && end + 1 > b.len()) {
            Err(ParseError::Missing("bytes"))
        } else if nul && b[end as int] != 0 {
            Err(ParseError::Invalid("missing null terminator in string"))
        } else {
            let bytes = b.subrange((p + 4) as int, end as int);
            if !valid_utf8(bytes) {
                Err(ParseError::Invalid("utf-8"))
            } else {
                Ok((decode_utf8(bytes), if nul { end + 1 } else { end }))
            }
        }
    }
}

/// A page at `p`: its file's name, then its width, height and the length
/// of a bitmask that is passed over; the name and the position after the
/// bitmask (which may lie past the end).
pub open spec fn sd_page(b: Seq<u8>, p: nat) -> Result<(Seq<char>, nat), ParseError> {
    match sd_string(b, p, true) {
        Err(e) => Err(e),
        Ok((file, q)) => if q + 12 > b.len() {
            Err(ParseError::Missing("bytes"))
        } else {
            Ok((file, q + 12 + u32_le(b, (q + 8) as int)))
        },
    }
}

/// `n` pages from `p` on, and the position after them.
pub open spec fn sd_pages(b: Seq<u8>, p: nat, n: nat) -> Result<(Seq<Seq<char>>, nat), ParseError>
    decreases n,
{
    if n == 0 {
        Ok((seq![], p))
    } else {
        match sd_pages(b, p, (n - 1) as nat) {
            Err(e) => Err(e),
            Ok((acc, q)) => match sd_page(b, q) {
                Err(e) => Err(e),
                Ok((f, q2)) => Ok((acc.push(f), q2)),
            },
        }
    }
}

/// A sprite at `p`: its key, then the index of its page, its left, right,
/// top and bottom edges, two bytes and two more `u16`s that are passed
/// over; the page must be one of those read.
pub open spec fn sd_sprite(b: Seq<u8>, p: nat, pages: Seq<Seq<char>>) -> Result<
    ((Seq<char>, SpriteView), nat),
    ParseError,
> {
    match sd_string(b, p, false) {
        Err(e) => Err(e),
        Ok((key, q)) => if q + 16 > b.len() {
            Err(ParseError::Missing("bytes"))
        } else if u16_le(b, q as int) >= pages.len() {
            Err(ParseError::Invalid("sprite page"))
        } else {
            Ok(
                (
                    (
                        key,
                        SpriteView {
                            file: pages[u16_le(b, q as int) as int],
                            left: u16_le(b, (q + 2) as int) as u16,
                            right: u16_le(b, (q + 4) as int) as u16,
                            top: u16_le(b, (q + 6) as int) as u16,
                            bottom: u16_le(b, (q + 8) as int) as u16,
                        },
                    ),
                    q + 16,
                ),
            )
        },
    }
}

/// `n` sprites from `p` on, and the position after them.
pub open spec fn sd_sprites(b: Seq<u8>, p: nat, n: nat, pages: Seq<Seq<char>>) -> Result<
    (Seq<(Seq<char>, SpriteView)>, nat),
    ParseError,
>
    decreases n,
{
    if n == 0 {
        Ok((seq![], p))
    } else {
        match sd_sprites(b, p, (n - 1) as nat, pages) {
            Err(e) => Err(e),
            Ok((acc, q)) => match sd_sprite(b, q, pages) {
                Err(e) => Err(e),
                Ok((s, q2)) => Ok((acc.push(s), q2)),
            },
        }
    }
}

/// The sprites of an `.sd` file, keyed in file order: the magic number 6,
/// the numbers of pages and of sprites, the pages, then the sprites.
pub open spec fn sd_file(b: Seq<u8>) -> Result<Seq<(Seq<char>, SpriteView)>, ParseError> {
    if b.len() < 4 {
        Err(ParseError::Missing("bytes"))
    } else if u32_le(b, 0) != 6 {
        Err(ParseError::Invalid(".sd file"))
    } else if b.len() < 12 {
        Err(ParseError::Missing("bytes"))
    } else {
        match sd_pages(b, 12, u32_le(b, 4)) {
            Err(e) => Err(e),
            Ok((pages, q)) => match sd_sprites(b, q, u32_le(b, 8), pages) {
                Err(e) => Err(e),
                Ok((ss, _)) => Ok(ss),
            },
        }
    }
}

/// A position in the bytes: `p` where `past` is not set, else somewhere
/// after their end.
pub open spec fn at(b: Seq<u8>, p: usize, past: bool, q: nat) -> bool {
    if past {
        q > b.len()
    } else {
        q == p
    }
}

/// A string at `p`.
fn read_string(b: &[u8], p: usize, past: bool, nul: bool, Ghost(q): Ghost<nat>) -> (r: Result<
    (String, usize),
    ParseError,
>)
    requires
        at(b@, p, past, q),
    ensures
        match (r, sd_string(b@, q, nul)) {
            (Ok((s, p2)), Ok((t, q2))) => s@ == t && p2 == q2,
            (Err(e1), Err(e2)) => e1 == e2,
            _ => false,
        },
{
    if past {
        return Err(ParseError::Missing("bytes"));
    }
    let n = match read_u32(b, p) {
        None => {
            return Err(ParseError::Missing("bytes"));
        },
        Some(n) => n as usize,
    };
    if b.len() - (p + 4) < n {
        return Err(ParseError::Missing("bytes"));
    }
    let end = p + 4 + n;
    if nul && b.len() - end < 1 {
        return Err(ParseError::Missing("bytes"));
    }
    if nul && b[end] != 0 {
        return Err(ParseError::Invalid("missing null terminator in string"));
    }
    let mut bytes: Vec<u8> = Vec::new();
    let mut i = p + 4;
    while i < end
        invariant
            p + 4 <= i <= end <= b@.len(),
            bytes@ == b@.subrange(p + 4, i as int),
        decreases end - i,
    {
        bytes.push(b[i]);
        assert(bytes@ =~= b@.subrange(p + 4, i + 1));
        i += 1;
    }
    match string_from_utf8(bytes) {
        None => Err(ParseError::Invalid("utf-8")),
        Some(s) => Ok((s, if nul { end + 1 } else { end })),
    }
}

/// A page at a position.
fn read_page(b: &[u8], p: usize, past: bool, Ghost(q): Ghost<nat>) -> (r: Result<
    (String, usize, bool),
    ParseError,
>)
    requires
        at(b@, p, past, q),
    ensures
        match (r, sd_page(b@, q)) {
            (Ok((s, p2, past2)), Ok((t, q2))) => s@ == t && at(b@, p2, past2, q2),
            (Err(e1), Err(e2)) => e1 == e2,
            _ => false,
        },
{
    let (file, q1) = match read_string(b, p, past, true, Ghost(q)) {
        Err(e) => {
            return Err(e);
        },
        Ok(x) => x,
    };
    if b.len() - q1 < 12 {
        return Err(ParseError::Missing("bytes"));
    }
    let mask = match read_u32(b, q1 + 8) {
        None => {
            return Err(ParseError::Missing("bytes"));
        },
        Some(m) => m as usize,
    };
    if b.len() - (q1 + 12) < mask {
        Ok((file, b.len(), true))
    } else {
        Ok((file, q1 + 12 + mask, false))
    }
}

/// A sprite at a position.
fn read_sprite(b: &[u8], p: usize, past: bool, pages: &Vec<String>, Ghost(q): Ghost<nat>) -> (r: Result<
    ((String, Sprite), usize),
    ParseError,
>)
    requires
        at(b@, p, past, q),
    ensures
        match (r, sd_sprite(b@, q, pages.deep_view())) {
            (Ok((s, p2)), Ok((t, q2))) => (s.0@, sprite_view(s.1)) == t && p2 == q2,
            (Err(e1), Err(e2)) => e1 == e2,
            _ => false,
        },
{
    let (key, q1) = match read_string(b, p, past, false, Ghost(q)) {
        Err(e) => {
            return Err(e);
        },
        Ok(x) => x,
    };
    if b.len() - q1 < 16 {
        return Err(ParseError::Missing("bytes"));
    }
    let idx = read_u16(b, q1).unwrap() as usize;
    let left = read_u16(b, q1 + 2).unwrap();
    let right = read_u16(b, q1 + 4).unwrap();
    let top = read_u16(b, q1 + 6).unwrap();
    let bottom = read_u16(b, q1 + 8).unwrap();
    if idx >= pages.len() {
        return Err(ParseError::Invalid("sprite page"));
    }
    let file = pages[idx].clone();
    Ok(((key, Sprite { file, top, left, bottom, right }), q1 + 16))
}

/// Reads the sprites of an `.sd` file, in file order.
pub fn parse(data: &[u8], _mode: ParserMode) -> (res: Result<Vec<(String, Sprite)>, ParseError>)
    ensures
        match (res, sd_file(data@)) {
            (Ok(a), Ok(b)) => sprites_view(a@) == b,
            (Err(e1), Err(e2)) => e1 == e2,
            _ => false,
        },
{
    let magic = match read_u32(data, 0) {
        None => {
            return Err(ParseError::Missing("bytes"));
        },
        Some(m) => m,
    };
    if magic != 6 {
        return Err(ParseError::Invalid(".sd file"));
    }
    if data.len() < 12 {
        return Err(ParseError::Missing("bytes"));
    }
    let npages = read_u32(data, 4).unwrap();
    let nsprites = read_u32(data, 8).unwrap();
    let mut pages: Vec<String> = Vec::new();
    let mut pos: usize = 12;
    let mut past = false;
    let mut i: u32 = 0;
    let ghost mut q: nat = 12;
    assert(pages.deep_view() =~= Seq::<Seq<char>>::empty());
    while i < npages
        invariant
            0 <= i <= npages,
            npages == u32_le(data@, 4),
            data@.len() >= 12,
            u32_le(data@, 0) == 6,
            sd_pages(data@, 12, i as nat) == Ok::<_, ParseError>((pages.deep_view(), q)),
            at(data@, pos, past, q),
        decreases npages - i,
    {
        match read_page(data, pos, past, Ghost(q)) {
            Err(e) => {
                proof {
                    lemma_pages_err(data@, 12, (i + 1) as nat, npages as nat);
                }
                return Err(e);
            },
            Ok((f, p2, past2)) => {
                let ghost old = pages.deep_view();
                let ghost fv = f@;
                proof {
                    q = sd_page(data@, q)->Ok_0.1;
                }
                pages.push(f);
                assert(pages.deep_view() =~= old.push(fv));
                pos = p2;
                past = past2;
            },
        }
        i += 1;
    }
    let ghost pv = pages.deep_view();
    let mut out: Vec<(String, Sprite)> = Vec::new();
    let mut k: u32 = 0;
    let ghost q0 = q;
    assert(sprites_view(out@) =~= Seq::<(Seq<char>, SpriteView)>::empty());
    while k < nsprites
        invariant
            0 <= k <= nsprites,
            nsprites == u32_le(data@, 8),
            npages == u32_le(data@, 4),
            data@.len() >= 12,
            u32_le(data@, 0) == 6,
            sd_pages(data@, 12, npages as nat) == Ok::<_, ParseError>((pv, q0)),
            pv == pages.deep_view(),
            sd_sprites(data@, q0, k as nat, pv) == Ok::<_, ParseError>((sprites_view(out@), q)),
            at(data@, pos, past, q),
        decreases nsprites - k,
    {
        match read_sprite(data, pos, past, &pages, Ghost(q)) {
            Err(e) => {
                proof {
                    lemma_sprites_err(data@, q0, (k + 1) as nat, nsprites as nat, pv);
                }
                return Err(e);
            },
            Ok((s, p2)) => {
                let ghost old = sprites_view(out@);
                let ghost sv = (s.0@, sprite_view(s.1));
                proof {
                    q = sd_sprite(data@, q, pv)->Ok_0.1;
                }
                out.push(s);
                assert(sprites_view(out@) =~= old.push(sv));
                pos = p2;
                past = false;
            },
        }
        k += 1;
    }
    Ok(out)
}

proof fn lemma_pages_err(b: Seq<u8>, p: nat, k: nat, n: nat)
    requires
        k <= n,
        sd_pages(b, p, k) is Err,
    ensures
        sd_pages(b, p, n) == sd_pages(b, p, k),
    decreases n - k,
{
    if k < n {
        lemma_pages_err(b, p, k, (n - 1) as nat);
    }
}

proof fn lemma_sprites_err(b: Seq<u8>, p: nat, k: nat, n: nat, pages: Seq<Seq<char>>)
    requires
        k <= n,
        sd_sprites(b, p, k, pages) is Err,
    ensures
        sd_sprites(b, p, n, pages) == sd_sprites(b, p, k, pages),
    decreases n - k,
{
    if k < n {
        lemma_sprites_err(b, p, k, (n - 1) as nat, pages);
    }
}

} // verus!
