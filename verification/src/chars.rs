//! Text as sequences of characters: the line, comment, trimming and field
//! splitting rules that every game data file of the library is read with.
//!
//! Each rule is a spec function over `Seq<char>` that says what the matching
//! operation of `str` does (`lines`, `split`, `trim`, `split_whitespace`,
//! `starts_with`), and an executable function over `Vec<char>` proved to
//! compute it.
use vstd::prelude::*;

verus! {

/// Unicode `White_Space`, the property that `char::is_whitespace` tests.
pub open spec fn is_ws(c: char) -> bool {
    let u = c as u32;
    ||| 0x09 <= u <= 0x0D
    ||| u == 0x20
    ||| u == 0x85
    ||| u == 0xA0
    ||| u == 0x1680
    ||| 0x2000 <= u <= 0x200A
    ||| u == 0x2028
    ||| u == 0x2029
    ||| u == 0x202F
    ||| u == 0x205F
    ||| u == 0x3000
}

/// Whether `c` separates pieces: it is one of `seps`, or `ws` is set and `c`
/// is white space.
pub open spec fn is_sep(c: char, seps: Seq<char>, ws: bool) -> bool {
    seps.contains(c) || (ws && is_ws(c))
}

/// Index of the first separator in `s`, or `s.len()` where there is none.
pub open spec fn sep_pos(s: Seq<char>, seps: Seq<char>, ws: bool) -> nat
    decreases s.len(),
{
    if s.len() == 0 {
        0
    } else if is_sep(s[0], seps, ws) {
        0
    } else {
        1 + sep_pos(s.drop_first(), seps, ws)
    }
}

/// The text before the first `c` (all of it where there is no `c`):
/// what `s.split(c).nth(0)` gives.
pub open spec fn before(s: Seq<char>, c: char) -> Seq<char> {
    s.take(sep_pos(s, seq![c], false) as int)
}

pub open spec fn trim_start(s: Seq<char>) -> Seq<char>
    decreases s.len(),
{
    if s.len() > 0 && is_ws(s[0]) {
        trim_start(s.drop_first())
    } else {
        s
    }
}

pub open spec fn trim_end(s: Seq<char>) -> Seq<char>
    decreases s.len(),
{
    if s.len() > 0 && is_ws(s.last()) {
        trim_end(s.drop_last())
    } else {
        s
    }
}

/// `str::trim`: white space removed from both ends.
pub open spec fn trim(s: Seq<char>) -> Seq<char> {
    trim_end(trim_start(s))
}

pub open spec fn starts_with(s: Seq<char>, prefix: Seq<char>) -> bool {
    prefix.len() <= s.len() && s.take(prefix.len() as int) == prefix
}

/// `str::split` by a set of separator characters: every piece between two
/// separators, empty ones included, so `k` separators give `k + 1` pieces.
pub open spec fn pieces(s: Seq<char>, seps: Seq<char>, ws: bool) -> Seq<Seq<char>>
    decreases s.len(),
{
    let p = sep_pos(s, seps, ws);
    if p >= s.len() {
        seq![s]
    } else {
        seq![s.take(p as int)] + pieces(s.skip((p + 1) as int), seps, ws)
    }
}

/// A line without the `'\r'` of a `"\r\n"` ending.
pub open spec fn strip_cr(l: Seq<char>) -> Seq<char> {
    if l.len() > 0 && l.last() == '\r' {
        l.drop_last()
    } else {
        l
    }
}

/// `str::lines`: the text split at each `'\n'`, each line without its
/// `"\n"` or `"\r\n"` ending; a final line ending adds no empty line, and an
/// empty text has no lines.
pub open spec fn lines(s: Seq<char>) -> Seq<Seq<char>>
    decreases s.len(),
{
    if s.len() == 0 {
        seq![]
    } else {
        let p = sep_pos(s, seq!['\n'], false);
        if p >= s.len() {
            seq![s]
        } else {
            seq![strip_cr(s.take(p as int))] + lines(s.skip((p + 1) as int))
        }
    }
}

/// Each line cut at its first `c`.
pub open spec fn map_before(ls: Seq<Seq<char>>, c: char) -> Seq<Seq<char>> {
    Seq::new(ls.len(), |i: int| before(ls[i], c))
}

/// Each line trimmed.
pub open spec fn map_trim(ls: Seq<Seq<char>>) -> Seq<Seq<char>> {
    Seq::new(ls.len(), |i: int| trim(ls[i]))
}

/// The non-empty lines, in order.
pub open spec fn drop_empty(ls: Seq<Seq<char>>) -> Seq<Seq<char>>
    decreases ls.len(),
{
    if ls.len() == 0 {
        seq![]
    } else {
        let r = drop_empty(ls.drop_last());
        if ls.last().len() > 0 {
            r.push(ls.last())
        } else {
            r
        }
    }
}

/// The meaningful lines of a data file: comments after `;` cut away, each
/// line trimmed, empty lines dropped.
pub open spec fn clean_lines(s: Seq<char>) -> Seq<Seq<char>> {
    drop_empty(map_trim(map_before(lines(s), ';')))
}

/// The fields of a list: the pieces between separators, trimmed, empty ones
/// dropped (`split(..).map(trim).filter(non-empty)`, and `split_whitespace`).
pub open spec fn fields(s: Seq<char>, seps: Seq<char>, ws: bool) -> Seq<Seq<char>> {
    drop_empty(map_trim(pieces(s, seps, ws)))
}

/// A line split at its first white space: the keyword before it, and the
/// trimmed rest after it where there is a white space at all.
pub open spec fn keyword_value(l: Seq<char>) -> (Seq<char>, Option<Seq<char>>) {
    let p = sep_pos(l, seq![], true);
    if p >= l.len() {
        (l, None)
    } else {
        (l.take(p as int), Some(trim(l.skip((p + 1) as int))))
    }
}

/// The views of a vector of character vectors.
pub open spec fn views(v: Seq<Vec<char>>) -> Seq<Seq<char>> {
    Seq::new(v.len(), |i: int| v[i]@)
}

/// Where the separator scan stops.
pub proof fn lemma_sep_pos(s: Seq<char>, seps: Seq<char>, ws: bool, i: int)
    requires
        0 <= i <= s.len(),
        forall|j: int| 0 <= j < i ==> !is_sep(#[trigger] s[j], seps, ws),
        i == s.len() || is_sep(s[i], seps, ws),
    ensures
        sep_pos(s, seps, ws) == i,
    decreases i,
{
    if i > 0 {
        assert forall|j: int| 0 <= j < i - 1 implies !is_sep(#[trigger] s.drop_first()[j], seps, ws) by {
            assert(s.drop_first()[j] == s[j + 1]);
        }
        if i < s.len() {
            assert(s.drop_first()[i - 1] == s[i]);
        }
        lemma_sep_pos(s.drop_first(), seps, ws, i - 1);
        assert(!is_sep(s[0], seps, ws));
    }
}

pub proof fn lemma_sep_pos_bound(s: Seq<char>, seps: Seq<char>, ws: bool)
    ensures
        sep_pos(s, seps, ws) <= s.len(),
        sep_pos(s, seps, ws) < s.len() ==> is_sep(s[sep_pos(s, seps, ws) as int], seps, ws),
        forall|j: int| 0 <= j < sep_pos(s, seps, ws) ==> !is_sep(#[trigger] s[j], seps, ws),
    decreases s.len(),
{
    if s.len() > 0 && !is_sep(s[0], seps, ws) {
        lemma_sep_pos_bound(s.drop_first(), seps, ws);
        assert forall|j: int| 0 <= j < sep_pos(s, seps, ws) implies !is_sep(#[trigger] s[j], seps, ws) by {
            if j > 0 {
                assert(s[j] == s.drop_first()[j - 1]);
            }
        }
    }
}

/// The characters of a `&str`.
pub fn chars_of(s: &str) -> (r: Vec<char>)
    ensures
        r@ == s@,
{
    let mut r: Vec<char> = Vec::new();
    for c in it: s.chars()
        invariant
            r@ == it.seq().take(it.index() as int),
            it.seq() == s@,
    {
        r.push(c);
    }
    r
}

/// What `str::to_lowercase` gives for a text (the Unicode lowercase mapping).
pub uninterp spec fn lowercase(s: Seq<char>) -> Seq<char>;

/// `str::to_lowercase`: its result is the named lowercase mapping of the text.
#[verifier::external_body]
pub fn to_lowercase(s: &str) -> (r: String)
    ensures
        r@ == lowercase(s@),
{
    s.to_lowercase()
}

/// `String` from its characters, through `FromIterator<char> for String`.
#[verifier::external_body]
pub fn string_of(v: &Vec<char>) -> (s: String)
    ensures
        s@ == v@,
{
    v.iter().collect()
}

/// `String`s from character vectors.
pub fn strings_of(v: &Vec<Vec<char>>) -> (r: Vec<String>)
    ensures
        r.deep_view() == views(v@),
{
    let mut r: Vec<String> = Vec::new();
    let mut i: usize = 0;
    while i < v.len()
        invariant
            0 <= i <= v.len(),
            r.deep_view() =~= views(v@).take(i as int),
        decreases v.len() - i,
    {
        let s = string_of(&v[i]);
        let ghost old = r.deep_view();
        r.push(s);
        assert(r.deep_view() =~= old.push(s@));
        i += 1;
    }
    assert(views(v@).take(v.len() as int) =~= views(v@));
    r
}

/// `char::is_whitespace`.
pub fn is_whitespace(c: char) -> (b: bool)
    ensures
        b == is_ws(c),
{
    let u = c as u32;
    (0x09 <= u && u <= 0x0D) || u == 0x20 || u == 0x85 || u == 0xA0 || u == 0x1680 || (0x2000 <= u
        && u <= 0x200A) || u == 0x2028 || u == 0x2029 || u == 0x202F || u == 0x205F || u == 0x3000
}

/// Whether `c` is one of `seps`, or white space where `ws` is set.
pub fn is_separator(c: char, seps: &Vec<char>, ws: bool) -> (b: bool)
    ensures
        b == is_sep(c, seps@, ws),
{
    let mut i: usize = 0;
    while i < seps.len()
        invariant
            0 <= i <= seps.len(),
            forall|j: int| 0 <= j < i ==> seps@[j] != c,
        decreases seps.len() - i,
    {
        if seps[i] == c {
            assert(seps@.contains(c));
            return true;
        }
        i += 1;
    }
    if ws {
        is_whitespace(c)
    } else {
        false
    }
}

/// The characters of `v` from `lo` up to `hi`.
pub fn subvec(v: &Vec<char>, lo: usize, hi: usize) -> (r: Vec<char>)
    requires
        lo <= hi <= v.len(),
    ensures
        r@ == v@.subrange(lo as int, hi as int),
{
    let mut r: Vec<char> = Vec::new();
    let mut i = lo;
    while i < hi
        invariant
            lo <= i <= hi <= v.len(),
            r@ == v@.subrange(lo as int, i as int),
        decreases hi - i,
    {
        r.push(v[i]);
        i += 1;
    }
    r
}

/// Index of the first separator in `v` at or after `from`, or `v.len()`.
pub fn find_sep(v: &Vec<char>, from: usize, seps: &Vec<char>, ws: bool) -> (p: usize)
    requires
        from <= v.len(),
    ensures
        from <= p <= v.len(),
        p - from == sep_pos(v@.skip(from as int), seps@, ws),
{
    let mut i = from;
    while i < v.len() && !is_separator(v[i], seps, ws)
        invariant
            from <= i <= v.len(),
            forall|j: int| from <= j < i ==> !is_sep(#[trigger] v@[j], seps@, ws),
        decreases v.len() - i,
    {
        i += 1;
    }
    proof {
        let s = v@.skip(from as int);
        assert forall|j: int| 0 <= j < i - from implies !is_sep(#[trigger] s[j], seps@, ws) by {
            assert(s[j] == v@[from + j]);
        }
        if i < v.len() {
            assert(s[i - from] == v@[i as int]);
        }
        lemma_sep_pos(s, seps@, ws, i - from);
    }
    i
}

/// `str::trim` on characters.
pub fn trim_chars(v: &Vec<char>) -> (r: Vec<char>)
    ensures
        r@ == trim(v@),
{
    let mut lo: usize = 0;
    assert(v@.skip(0) =~= v@);
    while lo < v.len() && is_whitespace(v[lo])
        invariant
            0 <= lo <= v.len(),
            trim_start(v@) == trim_start(v@.skip(lo as int)),
        decreases v.len() - lo,
    {
        assert(v@.skip(lo as int).drop_first() =~= v@.skip(lo + 1));
        lo += 1;
    }
    assert(trim_start(v@) == v@.skip(lo as int));
    let mut hi: usize = v.len();
    while hi > lo && is_whitespace(v[hi - 1])
        invariant
            lo <= hi <= v.len(),
            trim_end(v@.skip(lo as int)) == trim_end(v@.subrange(lo as int, hi as int)),
        decreases hi - lo,
    {
        assert(v@.subrange(lo as int, hi as int).drop_last() =~= v@.subrange(
            lo as int,
            hi - 1,
        ));
        hi -= 1;
    }
    assert(v@.subrange(lo as int, v.len() as int) =~= v@.skip(lo as int));
    subvec(v, lo, hi)
}

/// Whether `v` begins with `prefix`.
pub fn starts_with_chars(v: &Vec<char>, prefix: &Vec<char>) -> (b: bool)
    ensures
        b == starts_with(v@, prefix@),
{
    if prefix.len() > v.len() {
        return false;
    }
    let mut i: usize = 0;
    while i < prefix.len()
        invariant
            prefix.len() <= v.len(),
            0 <= i <= prefix.len(),
            forall|j: int| 0 <= j < i ==> v@[j] == prefix@[j],
        decreases prefix.len() - i,
    {
        if v[i] != prefix[i] {
            assert(v@.take(prefix.len() as int)[i as int] != prefix@[i as int]);
            return false;
        }
        i += 1;
    }
    assert(v@.take(prefix.len() as int) =~= prefix@);
    true
}

/// Whether two character sequences are equal.
pub fn eq_chars(a: &Vec<char>, b: &Vec<char>) -> (r: bool)
    ensures
        r == (a@ == b@),
{
    if a.len() != b.len() {
        return false;
    }
    let r = starts_with_chars(a, b);
    assert(a@ =~= a@.take(b.len() as int));
    r
}

/// Whether `v` equals the text `s`.
pub fn eq_str(v: &Vec<char>, s: &str) -> (r: bool)
    ensures
        r == (v@ == s@),
{
    let t = chars_of(s);
    eq_chars(v, &t)
}

/// Whether `v` begins with the text `s`.
pub fn starts_with_str(v: &Vec<char>, s: &str) -> (r: bool)
    ensures
        r == starts_with(v@, s@),
{
    let t = chars_of(s);
    starts_with_chars(v, &t)
}

/// The text before the first `c`.
pub fn before_char(v: &Vec<char>, c: char) -> (r: Vec<char>)
    ensures
        r@ == before(v@, c),
{
    let seps = vec![c];
    assert(seps@ =~= seq![c]);
    let p = find_sep(v, 0, &seps, false);
    assert(v@.skip(0) =~= v@);
    subvec(v, 0, p)
}

/// `str::split` by a set of separators.
pub fn split_pieces(v: &Vec<char>, seps: &Vec<char>, ws: bool) -> (r: Vec<Vec<char>>)
    ensures
        views(r@) == pieces(v@, seps@, ws),
{
    let mut r: Vec<Vec<char>> = Vec::new();
    let mut start: usize = 0;
    assert(v@.skip(0) =~= v@);
    loop
        invariant
            0 <= start <= v.len(),
            pieces(v@, seps@, ws) == views(r@) + pieces(v@.skip(start as int), seps@, ws),
        decreases v.len() - start,
    {
        let p = find_sep(v, start, seps, ws);
        let piece = subvec(v, start, p);
        let ghost rest = v@.skip(start as int);
        let ghost old_r = r@;
        r.push(piece);
        assert(views(r@) =~= views(old_r).push(piece@));
        if p == v.len() {
            assert(piece@ =~= rest);
            assert(pieces(rest, seps@, ws) =~= seq![rest]);
            assert(views(r@) =~= views(old_r) + seq![rest]);
            return r;
        }
        assert(piece@ =~= rest.take((p - start) as int));
        assert(rest.skip((p - start) + 1) =~= v@.skip(p + 1));
        assert(pieces(rest, seps@, ws) =~= seq![piece@] + pieces(v@.skip(p + 1), seps@, ws));
        assert(views(old_r) + pieces(rest, seps@, ws) =~= views(r@) + pieces(
            v@.skip(p + 1),
            seps@,
            ws,
        ));
        start = p + 1;
    }
}

/// `str::lines`.
pub fn split_lines(v: &Vec<char>) -> (r: Vec<Vec<char>>)
    ensures
        views(r@) == lines(v@),
{
    let mut r: Vec<Vec<char>> = Vec::new();
    let mut start: usize = 0;
    let nl = vec!['\n'];
    assert(nl@ =~= seq!['\n']);
    assert(v@.skip(0) =~= v@);
    while start < v.len()
        invariant
            0 <= start <= v.len(),
            nl@ == seq!['\n'],
            lines(v@) == views(r@) + lines(v@.skip(start as int)),
        decreases v.len() - start,
    {
        let p = find_sep(v, start, &nl, false);
        let ghost rest = v@.skip(start as int);
        let ghost old_r = r@;
        if p == v.len() {
            let piece = subvec(v, start, p);
            r.push(piece);
            assert(piece@ =~= rest);
            assert(lines(rest) =~= seq![rest]);
            assert(views(r@) =~= views(old_r) + seq![rest]);
            assert(v@.skip(v.len() as int) =~= Seq::<char>::empty());
            start = p;
        } else {
            let mut piece = subvec(v, start, p);
            assert(piece@ =~= rest.take((p - start) as int));
            if piece.len() > 0 && piece[piece.len() - 1] == '\r' {
                piece.pop();
                assert(piece@ =~= strip_cr(rest.take((p - start) as int)));
            }
            r.push(piece);
            assert(rest.skip((p - start) + 1) =~= v@.skip(p + 1));
            assert(lines(rest) =~= seq![piece@] + lines(v@.skip(p + 1)));
            assert(views(r@) =~= views(old_r).push(piece@));
            assert(views(old_r) + lines(rest) =~= views(r@) + lines(v@.skip(p + 1)));
            start = p + 1;
        }
    }
    assert(v@.skip(start as int) =~= Seq::<char>::empty());
    assert(views(r@) + lines(Seq::<char>::empty()) =~= views(r@));
    r
}

/// Each line trimmed, empty ones dropped.
pub fn trim_drop_empty(ls: &Vec<Vec<char>>) -> (r: Vec<Vec<char>>)
    ensures
        views(r@) == drop_empty(map_trim(views(ls@))),
{
    let mut r: Vec<Vec<char>> = Vec::new();
    let mut i: usize = 0;
    while i < ls.len()
        invariant
            0 <= i <= ls.len(),
            views(r@) == drop_empty(map_trim(views(ls@)).take(i as int)),
        decreases ls.len() - i,
    {
        let t = trim_chars(&ls[i]);
        let ghost m = map_trim(views(ls@));
        assert(m.take(i + 1).drop_last() =~= m.take(i as int));
        assert(m.take(i + 1).last() == t@);
        let ghost old_r = r@;
        if t.len() > 0 {
            r.push(t);
            assert(views(r@) =~= views(old_r).push(t@));
        }
        i += 1;
    }
    assert(map_trim(views(ls@)).take(ls.len() as int) =~= map_trim(views(ls@)));
    r
}

/// The fields of a list split by `seps` (and white space where `ws`).
pub fn split_fields(v: &Vec<char>, seps: &Vec<char>, ws: bool) -> (r: Vec<Vec<char>>)
    ensures
        views(r@) == fields(v@, seps@, ws),
{
    let ps = split_pieces(v, seps, ws);
    trim_drop_empty(&ps)
}

/// Each line cut at its first `c`.
pub fn cut_each(ls: &Vec<Vec<char>>, c: char) -> (r: Vec<Vec<char>>)
    ensures
        views(r@) == map_before(views(ls@), c),
{
    let mut cut: Vec<Vec<char>> = Vec::new();
    let mut i: usize = 0;
    while i < ls.len()
        invariant
            0 <= i <= ls.len(),
            views(cut@) =~= map_before(views(ls@), c).take(i as int),
        decreases ls.len() - i,
    {
        let b = before_char(&ls[i], c);
        let ghost old_cut = cut@;
        cut.push(b);
        assert(views(cut@) =~= views(old_cut).push(b@));
        assert(map_before(views(ls@), c).take(i + 1) =~= map_before(views(ls@), c).take(
            i as int,
        ).push(b@));
        i += 1;
    }
    assert(views(cut@) =~= map_before(views(ls@), c));
    cut
}

/// Each line trimmed.
pub fn trim_each(ls: &Vec<Vec<char>>) -> (r: Vec<Vec<char>>)
    ensures
        views(r@) == map_trim(views(ls@)),
{
    let mut r: Vec<Vec<char>> = Vec::new();
    let mut i: usize = 0;
    while i < ls.len()
        invariant
            0 <= i <= ls.len(),
            views(r@) =~= map_trim(views(ls@)).take(i as int),
        decreases ls.len() - i,
    {
        let t = trim_chars(&ls[i]);
        let ghost old = r@;
        r.push(t);
        assert(views(r@) =~= views(old).push(t@));
        assert(map_trim(views(ls@)).take(i + 1) =~= map_trim(views(ls@)).take(i as int).push(
            t@,
        ));
        i += 1;
    }
    assert(views(r@) =~= map_trim(views(ls@)));
    r
}

/// The non-empty lines.
pub fn drop_empty_lines(ls: &Vec<Vec<char>>) -> (r: Vec<Vec<char>>)
    ensures
        views(r@) == drop_empty(views(ls@)),
{
    let mut r: Vec<Vec<char>> = Vec::new();
    let mut i: usize = 0;
    while i < ls.len()
        invariant
            0 <= i <= ls.len(),
            views(r@) == drop_empty(views(ls@).take(i as int)),
        decreases ls.len() - i,
    {
        let ghost vs = views(ls@);
        assert(vs.take(i + 1).drop_last() =~= vs.take(i as int));
        assert(vs.take(i + 1).last() == ls@[i as int]@);
        if ls[i].len() > 0 {
            let l = subvec(&ls[i], 0, ls[i].len());
            assert(l@ =~= ls@[i as int]@);
            let ghost old = r@;
            r.push(l);
            assert(views(r@) =~= views(old).push(l@));
        }
        i += 1;
    }
    assert(views(ls@).take(ls.len() as int) =~= views(ls@));
    r
}

/// The lines of a text with comments after `;` cut away.
pub fn cut_lines_of(s: &str) -> (r: Vec<Vec<char>>)
    ensures
        views(r@) == map_before(lines(s@), ';'),
{
    let v = chars_of(s);
    let ls = split_lines(&v);
    cut_each(&ls, ';')
}

/// The lines of a text with comments cut away, each trimmed.
pub fn trimmed_lines_of(s: &str) -> (r: Vec<Vec<char>>)
    ensures
        views(r@) == map_trim(map_before(lines(s@), ';')),
{
    let ls = cut_lines_of(s);
    trim_each(&ls)
}

/// The meaningful lines of a data file.
pub fn clean_lines_of(s: &str) -> (r: Vec<Vec<char>>)
    ensures
        views(r@) == clean_lines(s@),
{
    let ls = trimmed_lines_of(s);
    drop_empty_lines(&ls)
}

/// A line split into its keyword and the trimmed value after the first
/// white space.
pub fn keyword_value_of(l: &Vec<char>) -> (r: (Vec<char>, Option<Vec<char>>))
    ensures
        r.0@ == keyword_value(l@).0,
        match (r.1, keyword_value(l@).1) {
            (Some(a), Some(b)) => a@ == b,
            (None, None) => true,
            _ => false,
        },
{
    let none: Vec<char> = Vec::new();
    assert(none@ =~= Seq::<char>::empty());
    let p = find_sep(l, 0, &none, true);
    assert(l@.skip(0) =~= l@);
    if p == l.len() {
        assert(l@.take(p as int) =~= l@);
        (subvec(l, 0, p), None)
    } else {
        let rest = subvec(l, p + 1, l.len());
        assert(rest@ =~= l@.skip(p + 1));
        (subvec(l, 0, p), Some(trim_chars(&rest)))
    }
}

/// The first word of a text: what `split_whitespace().next()` gives.
pub open spec fn first_word(s: Seq<char>) -> Option<Seq<char>> {
    let t = trim_start(s);
    if t.len() == 0 {
        None
    } else {
        Some(t.take(sep_pos(t, seq![], true) as int))
    }
}

/// The text after a text's first word and the white space character that
/// ends it: what `split_whitespace().remainder()` gives once the first word
/// is taken; `None` where that word ends the text.
pub open spec fn after_word(s: Seq<char>) -> Option<Seq<char>> {
    let t = trim_start(s);
    let p = sep_pos(t, seq![], true);
    if p >= t.len() {
        None
    } else {
        Some(t.skip((p + 1) as int))
    }
}

/// The remainder of `split_whitespace` after `n` words.
pub open spec fn words_after(s: Seq<char>, n: nat) -> Option<Seq<char>>
    decreases n,
{
    if n == 0 {
        Some(s)
    } else {
        match after_word(s) {
            None => None,
            Some(t) => words_after(t, (n - 1) as nat),
        }
    }
}

/// The word that `split_whitespace` gives after `n` others.
pub open spec fn nth_word(s: Seq<char>, n: nat) -> Option<Seq<char>> {
    match words_after(s, n) {
        None => None,
        Some(t) => first_word(t),
    }
}

/// An optional character vector as an optional sequence.
pub open spec fn opt_chars(o: Option<Vec<char>>) -> Option<Seq<char>> {
    match o {
        Some(v) => Some(v@),
        None => None,
    }
}

/// Where the white space at the start of `v` ends.
pub fn trim_start_at(v: &Vec<char>) -> (lo: usize)
    ensures
        lo <= v.len(),
        v@.skip(lo as int) == trim_start(v@),
{
    let mut lo: usize = 0;
    assert(v@.skip(0) =~= v@);
    while lo < v.len() && is_whitespace(v[lo])
        invariant
            0 <= lo <= v.len(),
            trim_start(v@) == trim_start(v@.skip(lo as int)),
        decreases v.len() - lo,
    {
        assert(v@.skip(lo as int).drop_first() =~= v@.skip(lo + 1));
        lo += 1;
    }
    lo
}

/// The first word of a text and the text after it.
pub fn split_word(v: &Vec<char>) -> (r: (Option<Vec<char>>, Option<Vec<char>>))
    ensures
        opt_chars(r.0) == first_word(v@),
        opt_chars(r.1) == after_word(v@),
{
    let lo = trim_start_at(v);
    let ghost t = v@.skip(lo as int);
    let seps: Vec<char> = Vec::new();
    assert(seps@ =~= Seq::<char>::empty());
    let p = find_sep(v, lo, &seps, true);
    let w = if lo == v.len() {
        None
    } else {
        let w = subvec(v, lo, p);
        assert(w@ =~= t.take((p - lo) as int));
        Some(w)
    };
    let rest = if p >= v.len() {
        None
    } else {
        let r = subvec(v, p + 1, v.len());
        assert(r@ =~= t.skip((p - lo) + 1));
        Some(r)
    };
    (w, rest)
}

/// The remainder of `split_whitespace` after `n` words.
pub fn words_after_of(v: &Vec<char>, n: usize) -> (r: Option<Vec<char>>)
    ensures
        opt_chars(r) == words_after(v@, n as nat),
{
    let mut cur = subvec(v, 0, v.len());
    assert(cur@ =~= v@);
    let mut k: usize = 0;
    while k < n
        invariant
            k <= n,
            words_after(v@, n as nat) == words_after(cur@, (n - k) as nat),
        decreases n - k,
    {
        let (_, rest) = split_word(&cur);
        match rest {
            None => {
                return None;
            },
            Some(t) => {
                cur = t;
            },
        }
        k += 1;
    }
    Some(cur)
}

/// The word that `split_whitespace` gives after `n` others.
pub fn nth_word_of(v: &Vec<char>, n: usize) -> (r: Option<Vec<char>>)
    ensures
        opt_chars(r) == nth_word(v@, n as nat),
{
    match words_after_of(v, n) {
        None => None,
        Some(t) => split_word(&t).0,
    }
}

/// Whether `t` occurs in `s`: what `str::contains` tests for a text.
pub open spec fn has_substring(s: Seq<char>, t: Seq<char>) -> bool {
    exists|i: int| 0 <= i && i + t.len() <= s.len() && #[trigger] s.subrange(i, i + t.len()) == t
}

/// Whether `t` occurs in `v` at `i`.
fn matches_at(v: &Vec<char>, i: usize, t: &Vec<char>) -> (b: bool)
    requires
        i + t.len() <= v.len(),
    ensures
        b == (v@.subrange(i as int, i + t.len()) == t@),
{
    let mut k: usize = 0;
    while k < t.len()
        invariant
            i + t.len() <= v.len(),
            0 <= k <= t.len(),
            forall|j: int| 0 <= j < k ==> v@[i + j] == t@[j],
        decreases t.len() - k,
    {
        if v[i + k] != t[k] {
            assert(v@.subrange(i as int, i + t.len())[k as int] != t@[k as int]);
            return false;
        }
        k += 1;
    }
    assert(v@.subrange(i as int, i + t.len()) =~= t@);
    true
}

/// Whether the text `t` occurs in `v`.
pub fn contains_str(v: &Vec<char>, t: &str) -> (b: bool)
    ensures
        b == has_substring(v@, t@),
{
    let tv = chars_of(t);
    if tv.len() > v.len() {
        return false;
    }
    let last = v.len() - tv.len();
    let mut i: usize = 0;
    while i < last
        invariant
            tv@ == t@,
            last == v.len() - tv.len(),
            i <= last,
            forall|j: int| 0 <= j < i ==> #[trigger] v@.subrange(j, j + tv.len()) != t@,
        decreases last - i,
    {
        if matches_at(v, i, &tv) {
            return true;
        }
        i += 1;
    }
    if matches_at(v, last, &tv) {
        return true;
    }
    assert forall|j: int| 0 <= j && j + t@.len() <= v@.len() implies #[trigger] v@.subrange(
        j,
        j + t@.len(),
    ) != t@ by {
        assert(j <= last);
    }
    false
}

} // verus!
