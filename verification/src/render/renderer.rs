//! How the files of the site are preloaded, the web paths of files, and
//! how the map of regions is cleaned before areas are drawn on it.
use vstd::prelude::*;

use crate::chars::{pieces, split_pieces, views};
use crate::site::{Era, Module, PoolEntry, SiteFaction, SitePool, SiteUnit};

verus! {

/// What a preloaded file is fetched as.
#[derive(Debug, Clone, Copy, PartialEq, Eq, Structural)]
pub enum PreloadAs {
    Fetch,
    Font,
    Image,
}

/// The media type of a preloaded file.
#[derive(Debug, Clone, Copy, PartialEq, Eq, Structural)]
pub enum PreloadType {
    Wasm,
    Cbor,
    Json,
    Woff,
    Woff2,
    Svg,
    Png,
    Webp,
}

/// How a file is preloaded: as what, its media type, and whether it is
/// fetched with CORS.
#[derive(Debug, Clone, Copy, PartialEq, Eq, Structural)]
pub struct Preload {
    pub preload_as: PreloadAs,
    pub mime_type: PreloadType,
    pub cors: bool,
}

/// How a file of a media type is preloaded: code and data are fetched, fonts
/// as fonts, pictures as images; all but pictures with CORS.
pub open spec fn preload_of(t: PreloadType) -> Preload {
    Preload {
        preload_as: match t {
            PreloadType::Wasm | PreloadType::Json | PreloadType::Cbor => PreloadAs::Fetch,
            PreloadType::Woff | PreloadType::Woff2 => PreloadAs::Font,
            PreloadType::Svg | PreloadType::Png | PreloadType::Webp => PreloadAs::Image,
        },
        mime_type: t,
        cors: match t {
            PreloadType::Wasm | PreloadType::Json | PreloadType::Cbor | PreloadType::Woff
            | PreloadType::Woff2 => true,
            _ => false,
        },
    }
}

impl From<PreloadType> for Preload {
    fn from(value: PreloadType) -> (r: Self) {
        Preload {
            preload_as: match value {
                PreloadType::Wasm | PreloadType::Json | PreloadType::Cbor => PreloadAs::Fetch,
                PreloadType::Woff | PreloadType::Woff2 => PreloadAs::Font,
                PreloadType::Svg | PreloadType::Png | PreloadType::Webp => PreloadAs::Image,
            },
            mime_type: value,
            cors: match value {
                PreloadType::Wasm | PreloadType::Json | PreloadType::Cbor | PreloadType::Woff
                | PreloadType::Woff2 => true,
                _ => false,
            },
        }
    }
}

impl vstd::std_specs::convert::FromSpecImpl<PreloadType> for Preload {
    open spec fn obeys_from_spec() -> bool {
        true
    }

    open spec fn from_spec(v: PreloadType) -> Self {
        preload_of(v)
    }
}

/// The name of a way of preloading, as a link's `as` attribute writes it.
pub open spec fn preload_as_text(a: PreloadAs) -> Seq<char> {
    match a {
        PreloadAs::Fetch => "fetch"@,
        PreloadAs::Font => "font"@,
        PreloadAs::Image => "image"@,
    }
}

/// The name of a media type.
pub open spec fn preload_type_text(t: PreloadType) -> Seq<char> {
    match t {
        PreloadType::Wasm => "application/wasm"@,
        PreloadType::Cbor => "application/cbor"@,
        PreloadType::Json => "application/json"@,
        PreloadType::Woff => "application/font-woff"@,
        PreloadType::Woff2 => "font/woff2"@,
        PreloadType::Svg => "image/svg+xml"@,
        PreloadType::Png => "image/png"@,
        PreloadType::Webp => "image/webp"@,
    }
}

impl PreloadAs {
    /// The name, as a link's `as` attribute writes it.
    pub fn text(&self) -> (s: &'static str)
        ensures
            s@ == preload_as_text(*self),
    {
        match self {
            PreloadAs::Fetch => "fetch",
            PreloadAs::Font => "font",
            PreloadAs::Image => "image",
        }
    }
}

impl PreloadType {
    /// The media type's name.
    pub fn text(&self) -> (s: &'static str)
        ensures
            s@ == preload_type_text(*self),
    {
        match self {
            PreloadType::Wasm => "application/wasm",
            PreloadType::Cbor => "application/cbor",
            PreloadType::Json => "application/json",
            PreloadType::Woff => "application/font-woff",
            PreloadType::Woff2 => "font/woff2",
            PreloadType::Svg => "image/svg+xml",
            PreloadType::Png => "image/png",
            PreloadType::Webp => "image/webp",
        }
    }
}

/// The pieces of a relative path between its `/` separators.
pub open spec fn path_pieces(p: Seq<char>) -> Seq<Seq<char>> {
    pieces(p, seq!['/'], false)
}

/// Whether a path has only plain names as components: it does not start at
/// the root or with `.`, and no component is `..`.
pub open spec fn plain_relative(p: Seq<char>) -> bool {
    &&& !(p.len() > 0 && p[0] == '/')
    &&& path_pieces(p)[0] != "."@
    &&& forall|i: int| 0 <= i < path_pieces(p).len() ==> #[trigger] path_pieces(p)[i] != ".."@
}

/// The components of a path, as `Path::components` gives them: the pieces
/// between separators, without empty ones and `.`.
pub open spec fn components(ps: Seq<Seq<char>>) -> Seq<Seq<char>>
    decreases ps.len(),
{
    if ps.len() == 0 {
        seq![]
    } else {
        let c = components(ps.drop_last());
        let l = ps.last();
        if l.len() == 0 || l == "."@ {
            c
        } else {
            c.push(l)
        }
    }
}

/// Each component after a `/`.
pub open spec fn slash_joined(cs: Seq<Seq<char>>) -> Seq<char>
    decreases cs.len(),
{
    if cs.len() == 0 {
        seq![]
    } else {
        slash_joined(cs.drop_last()) + seq!['/'] + cs.last()
    }
}

/// The path of a file of the site as a web page refers to it: each
/// component after a `/`.
pub fn web_path(p: &str) -> (s: String)
    requires
        plain_relative(p@),
    ensures
        s@ == slash_joined(components(path_pieces(p@))),
{
    let v = crate::chars::chars_of(p);
    let mut slash: Vec<char> = Vec::new();
    slash.push('/');
    assert(slash@ =~= seq!['/']);
    let ps = split_pieces(&v, &slash, false);
    let ghost pv = views(ps@);
    let mut out: Vec<char> = Vec::new();
    let mut i: usize = 0;
    assert(pv.take(0) =~= Seq::<Seq<char>>::empty());
    while i < ps.len()
        invariant
            0 <= i <= ps.len(),
            pv == views(ps@),
            out@ == slash_joined(components(pv.take(i as int))),
        decreases ps.len() - i,
    {
        let ghost pre = pv.take(i + 1);
        assert(pre.drop_last() =~= pv.take(i as int));
        assert(pre.last() == ps@[i as int]@);
        let c = &ps[i];
        if !(c.len() == 0 || crate::chars::eq_str(c, ".")) {
            let ghost before = out@;
            out.push('/');
            let mut k: usize = 0;
            while k < c.len()
                invariant
                    0 <= k <= c.len(),
                    out@ == before + seq!['/'] + c@.take(k as int),
                decreases c.len() - k,
            {
                out.push(c[k]);
                assert(c@.take(k + 1) =~= c@.take(k as int).push(c@[k as int]));
                assert(out@ =~= before + seq!['/'] + c@.take(k + 1));
                k += 1;
            }
            assert(c@.take(c.len() as int) =~= c@);
            let ghost cs = components(pv.take(i as int));
            assert(components(pre) == cs.push(c@));
            assert(cs.push(c@).drop_last() =~= cs);
            assert(slash_joined(cs.push(c@)) == slash_joined(cs) + seq!['/'] + c@);
        }
        i += 1;
    }
    assert(pv.take(ps.len() as int) =~= pv);
    crate::chars::string_of(&out)
}

/// A pixel: red, green, blue and opacity.
#[derive(Debug, Clone, Copy, PartialEq, Eq, Structural)]
pub struct Rgba {
    pub r: u8,
    pub g: u8,
    pub b: u8,
    pub a: u8,
}

/// A picture: its pixels row by row, `width` to a row.
#[derive(Debug)]
pub struct Pixmap {
    pub width: u32,
    pub height: u32,
    pub pixels: Vec<Rgba>,
}

/// The colour of water on the map of regions.
pub open spec fn water_color() -> Rgba {
    Rgba { r: 0x29, g: 0x8C, b: 0xE9, a: 0xFF }
}

/// The colour of a city on the map of regions.
pub open spec fn city_color() -> Rgba {
    Rgba { r: 0x00, g: 0x00, b: 0x00, a: 0xFF }
}

/// The colour of a port on the map of regions.
pub open spec fn port_color() -> Rgba {
    Rgba { r: 0xFF, g: 0xFF, b: 0xFF, a: 0xFF }
}

/// Whether the picture has a pixel for each place.
pub open spec fn pixmap_ok(m: Pixmap) -> bool {
    m.pixels@.len() == m.width * m.height
}

/// The places next to a pixel, in the order they are looked at: above,
/// below, left, right, then the corners.
pub open spec fn offsets() -> Seq<(int, int)> {
    seq![(0, -1), (0, 1), (-1, 0), (1, 0), (-1, -1), (1, -1), (-1, 1), (1, 1)]
}

/// The pixels next to `(x, y)` among the first `k` places, that are on the
/// picture and not water, in order.
pub open spec fn neighbors_upto(ps: Seq<Rgba>, w: int, h: int, x: int, y: int, k: int) -> Seq<Rgba>
    decreases k,
{
    if k <= 0 {
        seq![]
    } else {
        let p = neighbors_upto(ps, w, h, x, y, k - 1);
        let nx = x + offsets()[k - 1].0;
        let ny = y + offsets()[k - 1].1;
        if 0 <= nx < w && 0 <= ny < h && ps[ny * w + nx] != water_color() {
            p.push(ps[ny * w + nx])
        } else {
            p
        }
    }
}

/// The pixels next to `(x, y)` that are on the picture and not water.
pub open spec fn neighbors(ps: Seq<Rgba>, w: int, h: int, x: int, y: int) -> Seq<Rgba> {
    neighbors_upto(ps, w, h, x, y, 8)
}

/// A pixel of the map once cities and ports are erased: a city's or a
/// port's pixel takes the colour of its first neighbor that is not water,
/// where it has one.
pub open spec fn erased_pixel(ps: Seq<Rgba>, w: int, h: int, x: int, y: int) -> Rgba {
    let c = ps[y * w + x];
    if (c == city_color() || c == port_color()) && neighbors(ps, w, h, x, y).len() > 0 {
        neighbors(ps, w, h, x, y)[0]
    } else {
        c
    }
}

proof fn lemma_index(w: int, h: int, x: int, y: int)
    requires
        0 <= x < w,
        0 <= y < h,
    ensures
        0 <= y * w + x < w * h,
        y * w + x + 1 <= w * h,
{
    assert(0 <= y * w) by (nonlinear_arith)
        requires
            0 <= y,
            0 <= x < w,
    ;
    assert(y * w + w <= w * h) by (nonlinear_arith)
        requires
            0 <= y < h,
            0 <= x < w,
    ;
}

/// `v` moved by the `k`th place's step along one axis (`horizontal` or not),
/// where that stays below `limit`.
fn step(v: u32, k: usize, horizontal: bool, limit: u32) -> (r: Option<u32>)
    requires
        k < 8,
        v < limit,
    ensures
        ({
            let d = if horizontal {
                offsets()[k as int].0
            } else {
                offsets()[k as int].1
            };
            &&& (r is Some) == (0 <= v + d < limit)
            &&& r matches Some(n) ==> n == v + d
        }),
{
    let d: i8 = if horizontal {
        if k == 2 || k == 4 || k == 6 {
            -1
        } else if k == 3 || k == 5 || k == 7 {
            1
        } else {
            0
        }
    } else {
        if k == 0 || k == 4 || k == 5 {
            -1
        } else if k == 1 || k == 6 || k == 7 {
            1
        } else {
            0
        }
    };
    if d < 0 {
        if v == 0 {
            None
        } else {
            Some(v - 1)
        }
    } else if d > 0 {
        if v + 1 < limit {
            Some(v + 1)
        } else {
            None
        }
    } else {
        Some(v)
    }
}

/// Where the pixel at `(x, y)` is.
fn index_of(image: &Pixmap, x: u32, y: u32) -> (i: usize)
    requires
        pixmap_ok(*image),
        x < image.width,
        y < image.height,
    ensures
        i == y * image.width + x,
        i < image.pixels@.len(),
{
    proof {
        lemma_index(image.width as int, image.height as int, x as int, y as int);
    }
    let w: usize = image.width as usize;
    let row: usize = y as usize;
    let col: usize = x as usize;
    let n: usize = image.pixels.len();
    assert(row * w + col < n);
    assert(row * w <= row * w + col);
    row * w + col
}

/// The pixels next to `(x, y)` that are on the picture and not water, in
/// the order they are looked at.
pub fn get_neighbors(image: &Pixmap, x: u32, y: u32) -> (r: Vec<Rgba>)
    requires
        pixmap_ok(*image),
        x < image.width,
        y < image.height,
    ensures
        r@ == neighbors(image.pixels@, image.width as int, image.height as int, x as int, y as int),
{
    let ghost ps = image.pixels@;
    let ghost w = image.width as int;
    let ghost h = image.height as int;
    let water = Rgba { r: 0x29, g: 0x8C, b: 0xE9, a: 0xFF };
    let mut r: Vec<Rgba> = Vec::new();
    let mut k: usize = 0;
    while k < 8
        invariant
            0 <= k <= 8,
            pixmap_ok(*image),
            ps == image.pixels@,
            w == image.width,
            h == image.height,
            x < image.width,
            y < image.height,
            water == water_color(),
            r@ == neighbors_upto(ps, w, h, x as int, y as int, k as int),
        decreases 8 - k,
    {
        let nx = step(x, k, true, image.width);
        let ny = step(y, k, false, image.height);
        match (nx, ny) {
            (Some(a), Some(b)) => {
                let i = index_of(image, a, b);
                let p = image.pixels[i];
                if p != water {
                    r.push(p);
                }
            },
            _ => {},
        }
        k += 1;
    }
    r
}

/// The map of regions with its cities and ports erased, each taking the
/// colour of the region around it.
pub fn erase_cities_and_ports(image: &mut Pixmap)
    requires
        pixmap_ok(*old(image)),
    ensures
        final(image).width == old(image).width,
        final(image).height == old(image).height,
        pixmap_ok(*final(image)),
        forall|x: int, y: int|
            0 <= x < old(image).width && 0 <= y < old(image).height ==> #[trigger] final(image).pixels@[y
                * old(image).width + x] == erased_pixel(
                old(image).pixels@,
                old(image).width as int,
                old(image).height as int,
                x,
                y,
            ),
{
    let copy = Pixmap { width: image.width, height: image.height, pixels: image.pixels.clone() };
    let ghost ps = copy.pixels@;
    let ghost w = copy.width as int;
    let ghost h = copy.height as int;
    let city = Rgba { r: 0x00, g: 0x00, b: 0x00, a: 0xFF };
    let port = Rgba { r: 0xFF, g: 0xFF, b: 0xFF, a: 0xFF };
    let mut y: u32 = 0;
    while y < image.height
        invariant
            0 <= y <= image.height,
            pixmap_ok(copy),
            ps == copy.pixels@,
            w == copy.width,
            h == copy.height,
            image.width == copy.width,
            image.height == copy.height,
            image.pixels@.len() == ps.len(),
            city == city_color(),
            port == port_color(),
            forall|xx: int, yy: int|
                0 <= xx < w && 0 <= yy < y ==> #[trigger] image.pixels@[yy * w + xx] == erased_pixel(ps, w, h, xx, yy),
            forall|i: int| y * w <= i < ps.len() ==> #[trigger] image.pixels@[i] == ps[i],
        decreases image.height - y,
    {
        let mut x: u32 = 0;
        while x < image.width
            invariant
                0 <= x <= image.width,
                y < image.height,
                pixmap_ok(copy),
                ps == copy.pixels@,
                w == copy.width,
                h == copy.height,
                image.width == copy.width,
                image.height == copy.height,
                image.pixels@.len() == ps.len(),
                city == city_color(),
                port == port_color(),
                forall|xx: int, yy: int|
                    0 <= xx < w && 0 <= yy < y ==> #[trigger] image.pixels@[yy * w + xx] == erased_pixel(ps, w, h, xx, yy),
                forall|xx: int| 0 <= xx < x ==> #[trigger] image.pixels@[y * w + xx] == erased_pixel(ps, w, h, xx, y as int),
                forall|i: int| y * w + x <= i < ps.len() ==> #[trigger] image.pixels@[i] == ps[i],
            decreases image.width - x,
        {
            let i = index_of(&copy, x, y);
            let c = copy.pixels[i];
            if c == city || c == port {
                let ns = get_neighbors(&copy, x, y);
                if ns.len() > 0 {
                    image.pixels.set(i, ns[0]);
                }
            }
            proof {
                assert forall|xx: int, yy: int| 0 <= xx < w && 0 <= yy < y implies #[trigger] image.pixels@[yy * w + xx] == erased_pixel(ps, w, h, xx, yy) by {
                    lemma_index(w, h, xx, yy);
                    assert(yy * w + xx < y * w) by (nonlinear_arith)
                        requires
                            0 <= xx < w,
                            0 <= yy < y,
                    ;
                }
                assert forall|xx: int| 0 <= xx < x + 1 implies #[trigger] image.pixels@[y * w + xx] == erased_pixel(ps, w, h, xx, y as int) by {}
            }
            x += 1;
        }
        proof {
            assert forall|xx: int, yy: int| 0 <= xx < w && 0 <= yy < y + 1 implies #[trigger] image.pixels@[yy * w + xx] == erased_pixel(ps, w, h, xx, yy) by {
                if yy == y {
                    assert(image.pixels@[y * w + xx] == erased_pixel(ps, w, h, xx, y as int));
                }
            }
            assert((y + 1) * w == y * w + w) by (nonlinear_arith);
        }
        y += 1;
    }
}

/// A fully transparent pixel.
pub open spec fn clear_color() -> Rgba {
    Rgba { r: 0, g: 0, b: 0, a: 0 }
}

/// A layer as large as the map of regions, in `color` where the map has
/// the region's colour (opaque), clear elsewhere.
pub fn region_layer(areas: &Pixmap, region_color: (u8, u8, u8), color: Rgba) -> (out: Pixmap)
    requires
        pixmap_ok(*areas),
    ensures
        out.width == areas.width,
        out.height == areas.height,
        out.pixels@.len() == areas.pixels@.len(),
        forall|i: int|
            0 <= i < out.pixels@.len() ==> #[trigger] out.pixels@[i] == if areas.pixels@[i] == (Rgba {
                r: region_color.0,
                g: region_color.1,
                b: region_color.2,
                a: 0xFF,
            }) {
                color
            } else {
                clear_color()
            },
{
    let key = Rgba { r: region_color.0, g: region_color.1, b: region_color.2, a: 0xFF };
    let clear = Rgba { r: 0, g: 0, b: 0, a: 0 };
    let mut pixels: Vec<Rgba> = Vec::new();
    let mut i: usize = 0;
    while i < areas.pixels.len()
        invariant
            0 <= i <= areas.pixels.len(),
            pixels@.len() == i,
            key == (Rgba { r: region_color.0, g: region_color.1, b: region_color.2, a: 0xFF }),
            clear == clear_color(),
            forall|k: int|
                0 <= k < i ==> #[trigger] pixels@[k] == if areas.pixels@[k] == key {
                    color
                } else {
                    clear
                },
        decreases areas.pixels.len() - i,
    {
        if areas.pixels[i] == key {
            pixels.push(color);
        } else {
            pixels.push(clear);
        }
        i += 1;
    }
    Pixmap { width: areas.width, height: areas.height, pixels }
}

/// A relative path that joins under another without leaving it: it does
/// not start at the root, and no piece between its `/`s is `..`.
pub open spec fn plain_path(p: Seq<char>) -> bool {
    &&& !(p.len() > 0 && p[0] == '/')
    &&& forall|i: int| 0 <= i < path_pieces(p).len() ==> #[trigger] path_pieces(p)[i] != ".."@
}

/// A text without `/` is one piece.
proof fn lemma_one_piece(s: Seq<char>)
    requires
        forall|i: int| 0 <= i < s.len() ==> s[i] != '/',
    ensures
        path_pieces(s) == seq![s],
{
    crate::chars::lemma_sep_pos_bound(s, seq!['/'], false);
    let p = crate::chars::sep_pos(s, seq!['/'], false);
    if p < s.len() {
        assert(seq!['/'].contains(s[p as int]));
        assert(seq!['/'][0] == '/');
    }
}

/// The path of an image under the site's folder: `images/{module}/{dir}/{name}`.
pub open spec fn image_text(m: Seq<char>, dir: Seq<char>, name: Seq<char>) -> Seq<char> {
    "images/"@ + m + "/"@ + dir + "/"@ + name
}

/// The components with the last one given the extension `webp`.
pub open spec fn webp_last(cs: Seq<Seq<char>>) -> Seq<Seq<char>> {
    if cs.len() == 0 {
        cs
    } else {
        cs.update(cs.len() - 1, with_webp(cs.last()))
    }
}

/// A path as a web page refers to it, with the extension `webp` where
/// `webp` is set: each component after a `/`.
pub open spec fn site_url(p: Seq<char>, webp: bool) -> Seq<char> {
    let cs = components(path_pieces(p));
    slash_joined(if webp { webp_last(cs) } else { cs })
}

/// Where a path's file name starts: after its last `/`.
pub open spec fn name_start(p: Seq<char>) -> int
    decreases p.len(),
{
    if p.len() == 0 {
        0
    } else if p.last() == '/' {
        p.len() as int
    } else {
        name_start(p.drop_last())
    }
}

/// Where a path's last `.` is, else -1.
pub open spec fn last_dot(p: Seq<char>) -> int
    decreases p.len(),
{
    if p.len() == 0 {
        -1
    } else if p.last() == '.' {
        p.len() - 1
    } else {
        last_dot(p.drop_last())
    }
}

/// A path with the extension `webp`, as `Path::with_extension` gives it:
/// the file name's extension (after its last `.`, where that is not the
/// name's first character) is replaced, or `.webp` is added.
pub open spec fn with_webp(p: Seq<char>) -> Seq<char> {
    let d = last_dot(p);
    if d > name_start(p) {
        p.take(d) + ".webp"@
    } else {
        p + ".webp"@
    }
}

/// Whether the path joins under another without leaving it.
pub fn is_plain_path(p: &str) -> (b: bool)
    ensures
        b == plain_path(p@),
{
    let v = crate::chars::chars_of(p);
    if v.len() > 0 && v[0] == '/' {
        return false;
    }
    let mut slash: Vec<char> = Vec::new();
    slash.push('/');
    assert(slash@ =~= seq!['/']);
    let ps = split_pieces(&v, &slash, false);
    let ghost pv = views(ps@);
    assert(pv == path_pieces(p@));
    let mut i: usize = 0;
    while i < ps.len()
        invariant
            0 <= i <= ps.len(),
            pv == views(ps@),
            pv == path_pieces(p@),
            forall|k: int| 0 <= k < i ==> #[trigger] pv[k] != ".."@,
        decreases ps.len() - i,
    {
        assert(pv[i as int] == ps@[i as int]@);
        if crate::chars::eq_str(&ps[i], "..") {
            return false;
        }
        i += 1;
    }
    true
}

/// A path as a web page refers to it, with the extension `webp` where
/// `webp` is set.
fn url_of(p: &Vec<char>, webp: bool) -> (r: String)
    ensures
        r@ == site_url(p@, webp),
{
    let mut slash: Vec<char> = Vec::new();
    slash.push('/');
    assert(slash@ =~= seq!['/']);
    let ps = split_pieces(p, &slash, false);
    let ghost pv = views(ps@);
    assert(pv == path_pieces(p@));
    let mut rest = ps;
    let mut cs: Vec<Vec<char>> = Vec::new();
    let mut i: usize = 0;
    let n = rest.len();
    assert(pv.take(0) =~= Seq::<Seq<char>>::empty());
    assert(views(rest@) =~= pv.skip(0));
    while rest.len() > 0
        invariant
            i + rest.len() == n,
            n == pv.len(),
            views(rest@) == pv.skip(i as int),
            views(cs@) == components(pv.take(i as int)),
        decreases rest.len(),
    {
        let c = rest.remove(0);
        assert(pv.take(i + 1).drop_last() =~= pv.take(i as int));
        assert(pv.take(i + 1).last() == c@) by {
            assert(pv.skip(i as int)[0] == c@);
        }
        assert(views(rest@) =~= pv.skip(i + 1)) by {
            assert forall|k: int| 0 <= k < rest@.len() implies views(rest@)[k] == pv.skip(i + 1)[k] by {
                assert(pv.skip(i as int)[k + 1] == pv.skip(i + 1)[k]);
            }
        }
        if !(c.len() == 0 || crate::chars::eq_str(&c, ".")) {
            let ghost old = views(cs@);
            cs.push(c);
            assert(views(cs@) =~= old.push(cs@[cs@.len() - 1]@));
        }
        i += 1;
    }
    assert(pv.take(n as int) =~= pv);
    let ghost comps = components(pv);
    if webp && cs.len() > 0 {
        let last = cs.pop().unwrap();
        let w = webp_of(&last);
        let ghost old = views(cs@);
        cs.push(w);
        assert(views(cs@) =~= webp_last(comps));
    }
    let ghost target = if webp { webp_last(comps) } else { comps };
    assert(views(cs@) == target);
    let mut out: Vec<char> = Vec::new();
    let mut k: usize = 0;
    assert(target.take(0) =~= Seq::<Seq<char>>::empty());
    while k < cs.len()
        invariant
            k <= cs.len(),
            views(cs@) == target,
            out@ == slash_joined(target.take(k as int)),
        decreases cs.len() - k,
    {
        assert(target.take(k + 1).drop_last() =~= target.take(k as int));
        assert(target.take(k + 1).last() == cs@[k as int]@);
        out.push('/');
        let c = &cs[k];
        let mut q: usize = 0;
        let ghost base = out@;
        while q < c.len()
            invariant
                q <= c.len(),
                out@ == base + c@.take(q as int),
            decreases c.len() - q,
        {
            out.push(c[q]);
            assert(c@.take(q + 1) =~= c@.take(q as int).push(c@[q as int]));
            q += 1;
        }
        assert(c@.take(c.len() as int) =~= c@);
        assert(out@ =~= slash_joined(target.take(k as int)) + seq!['/'] + c@);
        k += 1;
    }
    assert(target.take(cs.len() as int) =~= target);
    crate::chars::string_of(&out)
}

/// The path with its extension made `webp`.
fn webp_of(p: &Vec<char>) -> (r: Vec<char>)
    ensures
        r@ == with_webp(p@),
{
    let mut start: usize = 0;
    let mut dot: usize = 0;
    let mut has_dot = false;
    let mut i: usize = 0;
    assert(p@.take(0) =~= Seq::<char>::empty());
    while i < p.len()
        invariant
            0 <= i <= p.len(),
            start as int == name_start(p@.take(i as int)),
            has_dot == (last_dot(p@.take(i as int)) >= 0),
            has_dot ==> dot as int == last_dot(p@.take(i as int)),
            start <= i,
            dot < p.len() || !has_dot,
        decreases p.len() - i,
    {
        assert(p@.take(i + 1).drop_last() =~= p@.take(i as int));
        assert(p@.take(i + 1).last() == p@[i as int]);
        if p[i] == '/' {
            start = i + 1;
        } else if p[i] == '.' {
            dot = i;
            has_dot = true;
        }
        i += 1;
    }
    assert(p@.take(p.len() as int) =~= p@);
    let mut r: Vec<char> = Vec::new();
    let end: usize = if has_dot && dot > start {
        dot
    } else {
        p.len()
    };
    let mut k: usize = 0;
    while k < end
        invariant
            0 <= k <= end <= p.len(),
            r@ == p@.take(k as int),
        decreases end - k,
    {
        r.push(p[k]);
        assert(r@ =~= p@.take(k + 1));
        k += 1;
    }
    let ghost base = r@;
    crate::site::append_str(&mut r, ".webp");
    assert(base == p@.take(end as int));
    if !(has_dot && dot > start) {
        assert(p@.take(end as int) =~= p@);
    }
    r
}

/// Where the site keeps an image of a module, as a web page refers to it:
/// `images/{module}/{dir}/{name}` with the extension `webp`, as a web path.
pub fn image_path(module_id: &str, dir: &str, name: &str) -> (r: String)
    requires
        plain_path(module_id@),
        plain_path(dir@),
        plain_path(name@),
    ensures
        r@ == site_url(image_text(module_id@, dir@, name@), true),
{
    let mut v = crate::chars::chars_of("images/");
    crate::site::append_str(&mut v, module_id);
    crate::site::append_str(&mut v, "/");
    crate::site::append_str(&mut v, dir);
    crate::site::append_str(&mut v, "/");
    crate::site::append_str(&mut v, name);
    url_of(&v, true)
}

/// Where the site keeps a module's banner: `images/{module}/banner.webp`,
/// as a web path.
pub fn banner_path(module_id: &str) -> (r: String)
    requires
        plain_path(module_id@),
    ensures
        r@ == site_url("images/"@ + module_id@ + "/banner.webp"@, false),
{
    let mut v = crate::chars::chars_of("images/");
    crate::site::append_str(&mut v, module_id);
    crate::site::append_str(&mut v, "/banner.webp");
    url_of(&v, false)
}

/// Where the site keeps the map of the `i`-th area of recruitment drawn
/// (from 0): `images/{module}/aors/aor-{i + 1}.webp`, as a web path.
pub fn aor_map_path(module_id: &str, i: u64) -> (r: String)
    requires
        plain_path(module_id@),
        i < u64::MAX,
    ensures
        r@ == site_url(
            "images/"@ + module_id@ + "/aors/aor-"@ + crate::numbers::decimal_text((i + 1) as nat)
                + ".webp"@,
            false,
        ),
{
    let mut v = crate::chars::chars_of("images/");
    crate::site::append_str(&mut v, module_id);
    crate::site::append_str(&mut v, "/aors/aor-");
    let d = crate::numbers::decimal(i + 1);
    crate::site::append_chars(&mut v, &d);
    crate::site::append_str(&mut v, ".webp");
    url_of(&v, false)
}

/// Where the site keeps the portrait of a unit of a faction:
/// `images/{module}/units/{faction}/{key}` with the extension `webp`, as a
/// web path.
pub fn unit_image_path(module_id: &str, faction_id: &str, key: &str) -> (r: String)
    requires
        plain_path(module_id@),
        plain_path(faction_id@),
        plain_path(key@),
    ensures
        r@ == site_url(image_text(module_id@, "units/"@ + faction_id@, key@), true),
{
    let mut v = crate::chars::chars_of("images/");
    crate::site::append_str(&mut v, module_id);
    crate::site::append_str(&mut v, "/units/");
    crate::site::append_str(&mut v, faction_id);
    crate::site::append_str(&mut v, "/");
    crate::site::append_str(&mut v, key);
    proof {
        reveal_strlit("/");
        reveal_strlit("units/");
        reveal_strlit("/units/");
        assert("/"@ + "units/"@ =~= "/units/"@);
    }
    assert(v@ =~= image_text(module_id@, "units/"@ + faction_id@, key@));
    url_of(&v, true)
}

/// Each faction with its symbol and units' portraits under the module `mid`,
/// and nothing else changed.
pub open spec fn factions_imaged(r: Seq<(String, SiteFaction)>, fs: Seq<(String, SiteFaction)>, mid: Seq<char>) -> bool {
    &&& r.len() == fs.len()
    &&& forall|j: int|
        0 <= j < fs.len() ==> {
            let (k, f) = #[trigger] r[j];
            &&& k == fs[j].0
            &&& f == (SiteFaction { image: f.image, roster: f.roster, ..fs[j].1 })
            &&& f.image@ == site_url(image_text(mid, "factions"@, fs[j].1.id@), true)
            &&& f.roster@.len() == fs[j].1.roster@.len()
            &&& forall|q: int|
                0 <= q < f.roster@.len() ==> #[trigger] f.roster@[q] == (SiteUnit {
                    image: f.roster@[q].image,
                    ..fs[j].1.roster@[q]
                }) && f.roster@[q].image@ == site_url(image_text(mid, "units/"@ + fs[j].1.id@, fs[j].1.roster@[q].key@), true)
        }
}

/// Each pool with its map and units' portraits under the module `mid`, and
/// nothing else changed.
pub open spec fn pools_imaged(r: Seq<SitePool>, ps: Seq<SitePool>, mid: Seq<char>) -> bool {
    &&& r.len() == ps.len()
    &&& forall|j: int|
        0 <= j < ps.len() ==> {
            let p = #[trigger] r[j];
            &&& p == (SitePool { map: p.map, units: p.units, ..ps[j] })
            &&& p.map@ == site_url(image_text(mid, "pools"@, ps[j].map@), true)
            &&& p.units@.len() == ps[j].units@.len()
            &&& forall|q: int|
                0 <= q < p.units@.len() ==> #[trigger] p.units@[q] == (PoolEntry {
                    unit: SiteUnit { image: p.units@[q].unit.image, ..ps[j].units@[q].unit },
                    ..ps[j].units@[q]
                }) && p.units@[q].unit.image@ == site_url(image_text(mid, "units/mercs"@, ps[j].units@[q].unit.key@), true)
        }
}

/// Each era with its icons under the module `mid`, and nothing else changed.
pub open spec fn eras_imaged(r: Seq<(String, Era)>, es: Seq<(String, Era)>, mid: Seq<char>) -> bool {
    &&& r.len() == es.len()
    &&& forall|j: int|
        0 <= j < es.len() ==> {
            let (k, e) = #[trigger] r[j];
            &&& k == es[j].0
            &&& e == (Era { icon: e.icon, icoff: e.icoff, ..es[j].1 })
            &&& e.icon@ == site_url(image_text(mid, "eras"@, es[j].1.icon@), true)
            &&& e.icoff@ == site_url(image_text(mid, "eras"@, es[j].1.icoff@), true)
        }
}

/// The units with their portraits where the site keeps them for the
/// faction; nothing else of them changes.
pub fn roster_with_images(units: Vec<SiteUnit>, module_id: &str, faction_id: &str) -> (r: Vec<SiteUnit>)
    requires
        plain_path(module_id@),
        plain_path(faction_id@),
        forall|j: int| 0 <= j < units@.len() ==> plain_path(#[trigger] units@[j].key@),
    ensures
        r@.len() == units@.len(),
        forall|j: int|
            0 <= j < units@.len() ==> #[trigger] r@[j] == (SiteUnit { image: r@[j].image, ..units@[j] })
                && r@[j].image@ == site_url(image_text(module_id@, "units/"@ + faction_id@, units@[j].key@), true),
{
    let ghost all = units@;
    let n = units.len();
    let mut rest = units;
    let mut out: Vec<SiteUnit> = Vec::new();
    let mut i: usize = 0;
    assert(rest@ =~= all.skip(0));
    while rest.len() > 0
        invariant
            i <= all.len(),
            rest@ == all.skip(i as int),
            out@.len() == i,
            rest@.len() + i == all.len(),
            all.len() == n,
            plain_path(module_id@),
            plain_path(faction_id@),
            forall|j: int| 0 <= j < all.len() ==> plain_path(#[trigger] all[j].key@),
            forall|j: int|
                0 <= j < i ==> #[trigger] out@[j] == (SiteUnit { image: out@[j].image, ..all[j] })
                    && out@[j].image@ == site_url(image_text(module_id@, "units/"@ + faction_id@, all[j].key@), true),
        decreases rest.len(),
    {
        let u = rest.remove(0);
        assert(u == all[i as int]);
        assert(rest@ =~= all.skip(i + 1));
        let image = unit_image_path(module_id, faction_id, u.key.as_str());
        out.push(SiteUnit { image, ..u });
        i += 1;
    }
    out
}

/// The factions with their symbols and their units' portraits where the
/// site keeps them; nothing else of them changes.
pub fn factions_with_images(fs: Vec<(String, SiteFaction)>, module_id: &str) -> (r: Vec<(String, SiteFaction)>)
    requires
        plain_path(module_id@),
        forall|j: int| 0 <= j < fs@.len() ==> plain_path(#[trigger] fs@[j].1.id@),
        forall|j: int, k: int|
            0 <= j < fs@.len() && 0 <= k < fs@[j].1.roster@.len() ==> plain_path(
                #[trigger] fs@[j].1.roster@[k].key@,
            ),
    ensures
        factions_imaged(r@, fs@, module_id@),
{
    let ghost all = fs@;
    let n = fs.len();
    let mut rest = fs;
    let mut out: Vec<(String, SiteFaction)> = Vec::new();
    let mut i: usize = 0;
    assert(rest@ =~= all.skip(0));
    while rest.len() > 0
        invariant
            i <= all.len(),
            rest@ == all.skip(i as int),
            out@.len() == i,
            rest@.len() + i == all.len(),
            all.len() == n,
            plain_path(module_id@),
            forall|j: int| 0 <= j < all.len() ==> plain_path(#[trigger] all[j].1.id@),
            forall|j: int, k: int|
                0 <= j < all.len() && 0 <= k < all[j].1.roster@.len() ==> plain_path(
                    #[trigger] all[j].1.roster@[k].key@,
                ),
            forall|j: int|
                0 <= j < i ==> {
                    let (k, f) = #[trigger] out@[j];
                    &&& k == all[j].0
                    &&& f == (SiteFaction { image: f.image, roster: f.roster, ..all[j].1 })
                    &&& f.image@ == site_url(image_text(module_id@, "factions"@, all[j].1.id@), true)
                    &&& f.roster@.len() == all[j].1.roster@.len()
                    &&& forall|q: int|
                        0 <= q < f.roster@.len() ==> #[trigger] f.roster@[q] == (SiteUnit {
                            image: f.roster@[q].image,
                            ..all[j].1.roster@[q]
                        }) && f.roster@[q].image@ == site_url(image_text(module_id@, "units/"@ + all[j].1.id@, all[j].1.roster@[q].key@), true)
                },
        decreases rest.len(),
    {
        let (k, f) = rest.remove(0);
        assert((k, f) == all[i as int]);
        assert(rest@ =~= all.skip(i + 1));
        assert forall|q: int| 0 <= q < f.roster@.len() implies plain_path(#[trigger] f.roster@[q].key@) by {
            assert(plain_path(all[i as int].1.roster@[q].key@));
        }
        proof {
            reveal_strlit("factions");
            reveal_strlit("..");
            lemma_one_piece("factions"@);
            assert("factions"@.len() != ".."@.len());
            assert(plain_path("factions"@));
        }
        let image = image_path(module_id, "factions", f.id.as_str());
        let roster = roster_with_images(f.roster, module_id, f.id.as_str());
        out.push((k, SiteFaction { image, roster, ..f }));
        i += 1;
    }
    out
}

/// The pool's units with their portraits where the site keeps those of
/// mercenaries; nothing else of them changes.
pub fn entries_with_images(es: Vec<PoolEntry>, module_id: &str) -> (r: Vec<PoolEntry>)
    requires
        plain_path(module_id@),
        forall|j: int| 0 <= j < es@.len() ==> plain_path(#[trigger] es@[j].unit.key@),
    ensures
        r@.len() == es@.len(),
        forall|j: int|
            0 <= j < es@.len() ==> #[trigger] r@[j] == (PoolEntry {
                unit: SiteUnit { image: r@[j].unit.image, ..es@[j].unit },
                ..es@[j]
            }) && r@[j].unit.image@ == site_url(image_text(module_id@, "units/mercs"@, es@[j].unit.key@), true),
{
    let ghost all = es@;
    let n = es.len();
    let mut rest = es;
    let mut out: Vec<PoolEntry> = Vec::new();
    let mut i: usize = 0;
    assert(rest@ =~= all.skip(0));
    while rest.len() > 0
        invariant
            i <= all.len(),
            rest@ == all.skip(i as int),
            out@.len() == i,
            rest@.len() + i == all.len(),
            all.len() == n,
            plain_path(module_id@),
            forall|j: int| 0 <= j < all.len() ==> plain_path(#[trigger] all[j].unit.key@),
            forall|j: int|
                0 <= j < i ==> #[trigger] out@[j] == (PoolEntry {
                    unit: SiteUnit { image: out@[j].unit.image, ..all[j].unit },
                    ..all[j]
                }) && out@[j].unit.image@ == site_url(image_text(module_id@, "units/mercs"@, all[j].unit.key@), true),
        decreases rest.len(),
    {
        let e = rest.remove(0);
        assert(e == all[i as int]);
        assert(rest@ =~= all.skip(i + 1));
        proof {
            reveal_strlit("mercs");
            reveal_strlit("..");
            lemma_one_piece("mercs"@);
            assert("mercs"@.len() != ".."@.len());
            assert(plain_path("mercs"@));
        }
        let image = unit_image_path(module_id, "mercs", e.unit.key.as_str());
        proof {
            reveal_strlit("units/");
            reveal_strlit("units/mercs");
            assert("units/"@ + "mercs"@ =~= "units/mercs"@);
        }
        out.push(PoolEntry { unit: SiteUnit { image, ..e.unit }, ..e });
        i += 1;
    }
    out
}

/// The pools with their maps and their units' portraits where the site
/// keeps them; nothing else of them changes.
pub fn pools_with_images(ps: Vec<SitePool>, module_id: &str) -> (r: Vec<SitePool>)
    requires
        plain_path(module_id@),
        forall|j: int| 0 <= j < ps@.len() ==> plain_path(#[trigger] ps@[j].map@),
        forall|j: int, k: int|
            0 <= j < ps@.len() && 0 <= k < ps@[j].units@.len() ==> plain_path(
                #[trigger] ps@[j].units@[k].unit.key@,
            ),
    ensures
        pools_imaged(r@, ps@, module_id@),
{
    let ghost all = ps@;
    let n = ps.len();
    let mut rest = ps;
    let mut out: Vec<SitePool> = Vec::new();
    let mut i: usize = 0;
    assert(rest@ =~= all.skip(0));
    while rest.len() > 0
        invariant
            i <= all.len(),
            rest@ == all.skip(i as int),
            out@.len() == i,
            rest@.len() + i == all.len(),
            all.len() == n,
            plain_path(module_id@),
            forall|j: int| 0 <= j < all.len() ==> plain_path(#[trigger] all[j].map@),
            forall|j: int, k: int|
                0 <= j < all.len() && 0 <= k < all[j].units@.len() ==> plain_path(
                    #[trigger] all[j].units@[k].unit.key@,
                ),
            forall|j: int|
                0 <= j < i ==> {
                    let p = #[trigger] out@[j];
                    &&& p == (SitePool { map: p.map, units: p.units, ..all[j] })
                    &&& p.map@ == site_url(image_text(module_id@, "pools"@, all[j].map@), true)
                    &&& p.units@.len() == all[j].units@.len()
                    &&& forall|q: int|
                        0 <= q < p.units@.len() ==> #[trigger] p.units@[q] == (PoolEntry {
                            unit: SiteUnit { image: p.units@[q].unit.image, ..all[j].units@[q].unit },
                            ..all[j].units@[q]
                        }) && p.units@[q].unit.image@ == site_url(image_text(module_id@, "units/mercs"@, all[j].units@[q].unit.key@), true)
                },
        decreases rest.len(),
    {
        let p = rest.remove(0);
        assert(p == all[i as int]);
        assert(rest@ =~= all.skip(i + 1));
        assert forall|q: int| 0 <= q < p.units@.len() implies plain_path(#[trigger] p.units@[q].unit.key@) by {
            assert(plain_path(all[i as int].units@[q].unit.key@));
        }
        proof {
            reveal_strlit("pools");
            reveal_strlit("..");
            lemma_one_piece("pools"@);
            assert("pools"@.len() != ".."@.len());
            assert(plain_path("pools"@));
        }
        let map = image_path(module_id, "pools", p.map.as_str());
        let units = entries_with_images(p.units, module_id);
        out.push(SitePool { map, units, ..p });
        i += 1;
    }
    out
}

/// The eras with their icons, on and off, where the site keeps them;
/// nothing else of them changes.
pub fn eras_with_images(es: Vec<(String, Era)>, module_id: &str) -> (r: Vec<(String, Era)>)
    requires
        plain_path(module_id@),
        forall|j: int| 0 <= j < es@.len() ==> plain_path(#[trigger] es@[j].1.icon@) && plain_path(es@[j].1.icoff@),
    ensures
        eras_imaged(r@, es@, module_id@),
{
    let ghost all = es@;
    let n = es.len();
    let mut rest = es;
    let mut out: Vec<(String, Era)> = Vec::new();
    let mut i: usize = 0;
    assert(rest@ =~= all.skip(0));
    while rest.len() > 0
        invariant
            i <= all.len(),
            rest@ == all.skip(i as int),
            out@.len() == i,
            rest@.len() + i == all.len(),
            all.len() == n,
            plain_path(module_id@),
            forall|j: int| 0 <= j < all.len() ==> plain_path(#[trigger] all[j].1.icon@) && plain_path(all[j].1.icoff@),
            forall|j: int|
                0 <= j < i ==> {
                    let (k, e) = #[trigger] out@[j];
                    &&& k == all[j].0
                    &&& e == (Era { icon: e.icon, icoff: e.icoff, ..all[j].1 })
                    &&& e.icon@ == site_url(image_text(module_id@, "eras"@, all[j].1.icon@), true)
                    &&& e.icoff@ == site_url(image_text(module_id@, "eras"@, all[j].1.icoff@), true)
                },
        decreases rest.len(),
    {
        let (k, e) = rest.remove(0);
        assert((k, e) == all[i as int]);
        assert(rest@ =~= all.skip(i + 1));
        proof {
            reveal_strlit("eras");
            reveal_strlit("..");
            lemma_one_piece("eras"@);
            assert("eras"@.len() != ".."@.len());
            assert(plain_path("eras"@));
        }
        let icon = image_path(module_id, "eras", e.icon.as_str());
        let icoff = image_path(module_id, "eras", e.icoff.as_str());
        out.push((k, Era { icon, icoff, ..e }));
        i += 1;
    }
    out
}

/// Whether every name that a module's images are kept under is a plain
/// path: the module's id, its factions' ids and units' keys, its pools'
/// maps and units' keys, and its eras' icons.
pub open spec fn image_names_plain(m: Module) -> bool {
    &&& plain_path(m.id@)
    &&& forall|j: int| 0 <= j < m.factions@.len() ==> plain_path(#[trigger] m.factions@[j].1.id@)
    &&& forall|j: int, k: int|
        0 <= j < m.factions@.len() && 0 <= k < m.factions@[j].1.roster@.len() ==> plain_path(
            #[trigger] m.factions@[j].1.roster@[k].key@,
        )
    &&& forall|j: int| 0 <= j < m.pools@.len() ==> plain_path(#[trigger] m.pools@[j].map@)
    &&& forall|j: int, k: int|
        0 <= j < m.pools@.len() && 0 <= k < m.pools@[j].units@.len() ==> plain_path(
            #[trigger] m.pools@[j].units@[k].unit.key@,
        )
    &&& forall|j: int| 0 <= j < m.eras@.len() ==> plain_path(#[trigger] m.eras@[j].1.icon@) && plain_path(m.eras@[j].1.icoff@)
}

/// A module with its images where the site keeps them: its banner, its
/// factions' symbols and units' portraits, its pools' maps and units'
/// portraits, and its eras' icons. Nothing else of it changes.
pub fn module_with_images(m: Module) -> (r: Module)
    requires
        image_names_plain(m),
    ensures
        r == (Module { banner: r.banner, factions: r.factions, pools: r.pools, eras: r.eras, ..m }),
        r.banner@ == site_url("images/"@ + m.id@ + "/banner.webp"@, false),
        factions_imaged(r.factions@, m.factions@, m.id@),
        pools_imaged(r.pools@, m.pools@, m.id@),
        eras_imaged(r.eras@, m.eras@, m.id@),
{
    let banner = banner_path(m.id.as_str());
    let factions = factions_with_images(m.factions, m.id.as_str());
    let pools = pools_with_images(m.pools, m.id.as_str());
    let eras = eras_with_images(m.eras, m.id.as_str());
    Module { banner, factions, pools, eras, ..m }
}

/// The ids of the units that the pools offer, pool by pool, in order.
pub open spec fn pool_unit_ids(ps: Seq<SitePool>) -> Seq<Seq<char>>
    decreases ps.len(),
{
    if ps.len() == 0 {
        seq![]
    } else {
        pool_unit_ids(ps.drop_last()) + Seq::new(
            ps.last().units@.len(),
            |i: int| ps.last().units@[i].unit.id@,
        )
    }
}

/// The mercenaries whose portraits the site draws, each once: the ids of
/// the units that the pools offer, in order of first appearance.
pub fn mercenary_portraits(pools: &Vec<SitePool>) -> (r: Vec<String>)
    ensures
        r.deep_view() == crate::site::first_ids(pool_unit_ids(pools@)),
{
    let mut out: Vec<String> = Vec::new();
    let mut i: usize = 0;
    assert(pools@.take(0) =~= Seq::<SitePool>::empty());
    assert(out.deep_view() =~= Seq::<Seq<char>>::empty());
    while i < pools.len()
        invariant
            i <= pools.len(),
            out.deep_view() == crate::site::first_ids(pool_unit_ids(pools@.take(i as int))),
        decreases pools.len() - i,
    {
        let p = &pools[i];
        let ghost base = pool_unit_ids(pools@.take(i as int));
        let ghost ids = Seq::new(p.units@.len(), |k: int| p.units@[k].unit.id@);
        assert(pools@.take(i + 1).drop_last() =~= pools@.take(i as int));
        assert(pools@.take(i + 1).last() == *p);
        assert(pool_unit_ids(pools@.take(i + 1)) == base + ids);
        let mut j: usize = 0;
        assert(base + ids.take(0) =~= base);
        while j < p.units.len()
            invariant
                j <= p.units.len(),
                p == &pools[i as int],
                ids == Seq::new(p.units@.len(), |k: int| p.units@[k].unit.id@),
                out.deep_view() == crate::site::first_ids(base + ids.take(j as int)),
            decreases p.units.len() - j,
        {
            let id = &p.units[j].unit.id;
            let ghost all = base + ids.take(j + 1);
            assert(all.drop_last() =~= base + ids.take(j as int));
            assert(all.last() == id@);
            let seen = crate::site::holds_name(&out, id);
            assert(seen == out.deep_view().contains(id@)) by {
                if seen {
                    let q = choose|q: int| 0 <= q < out@.len() && (#[trigger] out@[q])@ == id@;
                    assert(out.deep_view()[q] == id@);
                }
                if out.deep_view().contains(id@) {
                    let q = choose|q: int| 0 <= q < out.deep_view().len() && out.deep_view()[q] == id@;
                    assert(out@[q]@ == id@);
                }
            }
            if !seen {
                let ghost before = out.deep_view();
                out.push(id.clone());
                assert(out.deep_view() =~= before.push(id@));
            }
            j += 1;
        }
        assert(ids.take(p.units.len() as int) =~= ids);
        i += 1;
    }
    assert(pools@.take(pools.len() as int) =~= pools@);
    out
}

} // verus!
