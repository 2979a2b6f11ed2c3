//! Records of a data file: blocks of lines that each start with a header
//! keyword, and the `keyword value` entries of such a block.
use vstd::prelude::*;

use crate::parse::ParseError;
use crate::chars::{
    chars_of, eq_chars, keyword_value, keyword_value_of, starts_with, starts_with_chars, starts_with_str,
    string_of, subvec, views, clean_lines, clean_lines_of,
};

verus! {

/// A record's entries: each line's keyword and optional value.
pub type Entries = Seq<(Seq<char>, Option<Seq<char>>)>;

/// Whether the first line (if any) begins with the header keyword, so that
/// every line belongs to a record.
pub open spec fn leads_with(ls: Seq<Seq<char>>, hdr: Seq<char>) -> bool {
    ls.len() == 0 || starts_with(ls[0], hdr)
}

/// The lines grouped into records: a line that begins with `hdr` opens a new
/// record, any other line joins the last one.
pub open spec fn group_by_header(ls: Seq<Seq<char>>, hdr: Seq<char>) -> Seq<Seq<Seq<char>>>
    decreases ls.len(),
{
    if ls.len() == 0 {
        seq![]
    } else {
        let g = group_by_header(ls.drop_last(), hdr);
        let l = ls.last();
        if starts_with(l, hdr) || g.len() == 0 {
            g.push(seq![l])
        } else {
            g.update(g.len() - 1, g.last().push(l))
        }
    }
}

/// The entries of a record's lines.
pub open spec fn record_entries(ls: Seq<Seq<char>>) -> Entries {
    Seq::new(ls.len(), |i: int| keyword_value(ls[i]))
}

/// What a map built from the entries holds for `key`: the entry of its last
/// line, as in a map filled in line order.
pub open spec fn lookup(es: Entries, key: Seq<char>) -> Option<Option<Seq<char>>>
    decreases es.len(),
{
    if es.len() == 0 {
        None
    } else if es.last().0 == key {
        Some(es.last().1)
    } else {
        lookup(es.drop_last(), key)
    }
}

/// The value of `key`, where its line is there and has a value.
pub open spec fn line_value(es: Entries, key: Seq<char>) -> Option<Seq<char>> {
    match lookup(es, key) {
        Some(Some(v)) => Some(v),
        _ => None,
    }
}

pub open spec fn opt_view(o: Option<Vec<char>>) -> Option<Seq<char>> {
    match o {
        Some(v) => Some(v@),
        None => None,
    }
}

pub open spec fn group_views(g: Seq<Vec<Vec<char>>>) -> Seq<Seq<Seq<char>>> {
    Seq::new(g.len(), |i: int| views(g[i]@))
}

pub open spec fn entries_view(es: Seq<(Vec<char>, Option<Vec<char>>)>) -> Entries {
    Seq::new(es.len(), |i: int| (es[i].0@, opt_view(es[i].1)))
}

/// The first line that begins with `p`.
pub open spec fn first_with_prefix(ls: Seq<Seq<char>>, p: Seq<char>) -> Option<Seq<char>>
    decreases ls.len(),
{
    if ls.len() == 0 {
        None
    } else if starts_with(ls[0], p) {
        Some(ls[0])
    } else {
        first_with_prefix(ls.drop_first(), p)
    }
}

/// The lines that do not begin with `p`.
pub open spec fn without_prefix(ls: Seq<Seq<char>>, p: Seq<char>) -> Seq<Seq<char>>
    decreases ls.len(),
{
    if ls.len() == 0 {
        seq![]
    } else {
        let r = without_prefix(ls.drop_last(), p);
        if starts_with(ls.last(), p) {
            r
        } else {
            r.push(ls.last())
        }
    }
}

/// The first line that begins with `p`.
pub fn find_with_prefix(ls: &Vec<Vec<char>>, p: &str) -> (r: Option<Vec<char>>)
    ensures
        opt_view(r) == first_with_prefix(views(ls@), p@),
{
    let mut i: usize = 0;
    let ghost all = views(ls@);
    assert(all.skip(0) =~= all);
    while i < ls.len()
        invariant
            0 <= i <= ls.len(),
            all == views(ls@),
            first_with_prefix(all, p@) == first_with_prefix(all.skip(i as int), p@),
        decreases ls.len() - i,
    {
        assert(all.skip(i as int)[0] == ls@[i as int]@);
        if starts_with_str(&ls[i], p) {
            let c = subvec(&ls[i], 0, ls[i].len());
            assert(c@ =~= ls@[i as int]@);
            return Some(c);
        }
        assert(all.skip(i as int).drop_first() =~= all.skip(i + 1));
        i += 1;
    }
    assert(all.skip(i as int) =~= Seq::<Seq<char>>::empty());
    None
}

/// The lines that do not begin with `p`.
pub fn filter_prefix(ls: &Vec<Vec<char>>, p: &str) -> (r: Vec<Vec<char>>)
    ensures
        views(r@) == without_prefix(views(ls@), p@),
{
    let mut r: Vec<Vec<char>> = Vec::new();
    let mut i: usize = 0;
    let ghost all = views(ls@);
    while i < ls.len()
        invariant
            0 <= i <= ls.len(),
            all == views(ls@),
            views(r@) == without_prefix(all.take(i as int), p@),
        decreases ls.len() - i,
    {
        assert(all.take(i + 1).drop_last() =~= all.take(i as int));
        assert(all.take(i + 1).last() == ls@[i as int]@);
        if !starts_with_str(&ls[i], p) {
            let c = subvec(&ls[i], 0, ls[i].len());
            assert(c@ =~= ls@[i as int]@);
            let ghost old = r@;
            r.push(c);
            assert(views(r@) =~= views(old).push(c@));
        }
        i += 1;
    }
    assert(all.take(ls.len() as int) =~= all);
    r
}

/// Whether the meaningful lines of `data` lead with the header keyword, as
/// the record readers require.
pub fn records_lead_with(data: &str, hdr: &str) -> (b: bool)
    ensures
        b == leads_with(clean_lines(data@), hdr@),
{
    let ls = clean_lines_of(data);
    lines_lead_with(&ls, hdr)
}

/// Lines grouped into records.
pub fn group_lines(ls: Vec<Vec<char>>, hdr: &str) -> (r: Vec<Vec<Vec<char>>>)
    requires
        leads_with(views(ls@), hdr@),
    ensures
        group_views(r@) == group_by_header(views(ls@), hdr@),
{
    let h = chars_of(hdr);
    let mut r: Vec<Vec<Vec<char>>> = Vec::new();
    let mut i: usize = 0;
    let n = ls.len();
    while i < n
        invariant
            0 <= i <= n == ls.len(),
            h@ == hdr@,
            leads_with(views(ls@), hdr@),
            group_views(r@) == group_by_header(views(ls@).take(i as int), hdr@),
            i > 0 ==> r.len() > 0,
        decreases n - i,
    {
        let l = subvec(&ls[i], 0, ls[i].len());
        assert(l@ =~= ls@[i as int]@);
        let ghost vs = views(ls@);
        assert(vs.take(i + 1).drop_last() =~= vs.take(i as int));
        assert(vs.take(i + 1).last() == l@);
        let ghost old_g = group_views(r@);
        if starts_with_chars(&l, &h) || r.len() == 0 {
            let ghost lv = l@;
            let mut grp: Vec<Vec<char>> = Vec::new();
            grp.push(l);
            assert(views(grp@) =~= seq![lv]);
            r.push(grp);
            assert(group_views(r@) =~= old_g.push(seq![lv]));
        } else {
            let ghost lv = l@;
            let mut last = r.pop().unwrap();
            let ghost old_last = views(last@);
            last.push(l);
            assert(views(last@) =~= old_last.push(lv));
            r.push(last);
            assert(group_views(r@) =~= old_g.update(old_g.len() - 1, old_g.last().push(lv)));
        }
        i += 1;
    }
    assert(views(ls@).take(n as int) =~= views(ls@));
    r
}

/// The entries of a record's lines.
pub fn entries_of(ls: &Vec<Vec<char>>) -> (r: Vec<(Vec<char>, Option<Vec<char>>)>)
    ensures
        entries_view(r@) == record_entries(views(ls@)),
{
    let mut r: Vec<(Vec<char>, Option<Vec<char>>)> = Vec::new();
    let mut i: usize = 0;
    while i < ls.len()
        invariant
            0 <= i <= ls.len(),
            entries_view(r@) =~= record_entries(views(ls@)).take(i as int),
        decreases ls.len() - i,
    {
        let kv = keyword_value_of(&ls[i]);
        let ghost old = entries_view(r@);
        r.push(kv);
        assert(entries_view(r@) =~= old.push(keyword_value(ls@[i as int]@)));
        assert(record_entries(views(ls@)).take(i + 1) =~= record_entries(views(ls@)).take(
            i as int,
        ).push(keyword_value(ls@[i as int]@)));
        i += 1;
    }
    r
}

/// What the entries hold for `key`.
pub fn lookup_entry(es: &Vec<(Vec<char>, Option<Vec<char>>)>, key: &str) -> (r: Option<
    Option<Vec<char>>,
>)
    ensures
        match (r, lookup(entries_view(es@), key@)) {
            (Some(a), Some(b)) => opt_view(a) == b,
            (None, None) => true,
            _ => false,
        },
{
    let k = chars_of(key);
    let mut i = es.len();
    assert(entries_view(es@).take(i as int) =~= entries_view(es@));
    while i > 0
        invariant
            0 <= i <= es.len(),
            k@ == key@,
            lookup(entries_view(es@), key@) == lookup(entries_view(es@).take(i as int), key@),
        decreases i,
    {
        let ghost ev = entries_view(es@);
        assert(ev.take(i as int).drop_last() =~= ev.take(i - 1));
        assert(ev.take(i as int).last() == ev[i - 1]);
        if eq_chars(&es[i - 1].0, &k) {
            let v = match &es[i - 1].1 {
                Some(v) => {
                    let c = subvec(v, 0, v.len());
                    assert(c@ =~= v@);
                    Some(c)
                },
                None => None,
            };
            assert(opt_view(v) =~= opt_view(es@[i - 1].1));
            return Some(v);
        }
        i -= 1;
    }
    assert(entries_view(es@).take(0) =~= Seq::<(Seq<char>, Option<Seq<char>>)>::empty());
    None
}

/// The value of `key`, where its line is there and has one.
pub fn value_of(es: &Vec<(Vec<char>, Option<Vec<char>>)>, key: &str) -> (r: Option<Vec<char>>)
    ensures
        opt_view(r) == line_value(entries_view(es@), key@),
{
    match lookup_entry(es, key) {
        Some(Some(v)) => Some(v),
        _ => None,
    }
}

pub open spec fn opt_string_view(o: Option<String>) -> Option<Seq<char>> {
    match o {
        Some(v) => Some(v@),
        None => None,
    }
}

/// What collecting the entries into a map keeps: for each key, the value of
/// its last entry.
pub open spec fn to_map<V>(es: Seq<(Seq<char>, V)>) -> Map<Seq<char>, V>
    decreases es.len(),
{
    if es.len() == 0 {
        Map::empty()
    } else {
        to_map(es.drop_last()).insert(es.last().0, es.last().1)
    }
}

/// An optional character vector as an optional `String`.
pub fn opt_string(o: Option<Vec<char>>) -> (r: Option<String>)
    ensures
        opt_string_view(r) == opt_view(o),
{
    match o {
        Some(v) => Some(string_of(&v)),
        None => None,
    }
}

/// Every record read with `f`, in order; the first record that `f` refuses
/// decides the error.
pub open spec fn map_all<A>(
    gs: Seq<Seq<Seq<char>>>,
    f: spec_fn(Seq<Seq<char>>) -> Result<A, ParseError>,
) -> Result<Seq<A>, ParseError>
    decreases gs.len(),
{
    if gs.len() == 0 {
        Ok(seq![])
    } else {
        match map_all(gs.drop_last(), f) {
            Err(e) => Err(e),
            Ok(p) => match f(gs.last()) {
                Err(e) => Err(e),
                Ok(a) => Ok(p.push(a)),
            },
        }
    }
}

/// An error on a prefix of the records is the error on all of them.
pub proof fn lemma_map_all_err<A>(
    gs: Seq<Seq<Seq<char>>>,
    f: spec_fn(Seq<Seq<char>>) -> Result<A, ParseError>,
    k: int,
    e: ParseError,
)
    requires
        0 <= k <= gs.len(),
        map_all(gs.take(k), f) == Err::<Seq<A>, ParseError>(e),
    ensures
        map_all(gs, f) == Err::<Seq<A>, ParseError>(e),
    decreases gs.len() - k,
{
    if k < gs.len() {
        assert(gs.take(k + 1).drop_last() =~= gs.take(k));
        lemma_map_all_err(gs, f, k + 1, e);
    } else {
        assert(gs.take(k) =~= gs);
    }
}

/// One more record read.
pub proof fn lemma_map_all_step<A>(
    gs: Seq<Seq<Seq<char>>>,
    f: spec_fn(Seq<Seq<char>>) -> Result<A, ParseError>,
    k: int,
)
    requires
        0 <= k < gs.len(),
    ensures
        map_all(gs.take(k + 1), f) == match map_all(gs.take(k), f) {
            Err(e) => Err(e),
            Ok(p) => match f(gs[k]) {
                Err(e) => Err(e),
                Ok(a) => Ok(p.push(a)),
            },
        },
{
    assert(gs.take(k + 1).drop_last() =~= gs.take(k));
    assert(gs.take(k + 1).last() == gs[k]);
}

/// A result seen through the deep view of its value.
pub open spec fn res_deep<T: DeepView>(r: Result<T, ParseError>) -> Result<T::V, ParseError> {
    match r {
        Ok(t) => Ok(t.deep_view()),
        Err(e) => Err(e),
    }
}

/// Whether the lines lead with the header keyword; callers of the record
/// readers test this first.
pub fn lines_lead_with(ls: &Vec<Vec<char>>, hdr: &str) -> (b: bool)
    ensures
        b == leads_with(views(ls@), hdr@),
{
    if ls.len() == 0 {
        true
    } else {
        starts_with_str(&ls[0], hdr)
    }
}

} // verus!
