//! `descr_mercenaries.txt`: the pools of mercenaries that regions offer.
use vstd::prelude::*;

use crate::chars::{
    clean_lines, clean_lines_of, eq_str, fields, find_sep, split_fields, string_of, strings_of,
    subvec, trim, trim_chars, views,
};
use crate::numbers::{is_float_chars, is_float_text, maybe_float_int, parse_maybe_float_int};
use crate::parse::manifest::ParserMode;
use crate::parse::ParseError;
use crate::records::{
    entries_of, entries_view, group_by_header, group_lines, group_views, leads_with, lemma_map_all_err,
    lemma_map_all_step, line_value, map_all, record_entries, res_deep, value_of, Entries,
};

verus! {

/// A unit that a pool offers.
///
/// The bounds of its replenishment rate are kept as their text, which is
/// known to be a number that `str::parse::<f64>` accepts.
#[derive(Debug)]
pub struct Unit {
    pub id: String,
    pub exp: u32,
    pub cost: u32,
    pub replenish: (String, String),
    pub max: u32,
    pub initial: u32,
    pub restrict: Vec<String>,
}

/// A pool of mercenaries: the regions it covers and the units it offers.
#[derive(Debug)]
pub struct Pool {
    pub id: String,
    pub regions: Vec<String>,
    pub units: Vec<Unit>,
}

pub struct UnitView {
    pub id: Seq<char>,
    pub exp: u32,
    pub cost: u32,
    pub replenish: (Seq<char>, Seq<char>),
    pub max: u32,
    pub initial: u32,
    pub restrict: Seq<Seq<char>>,
}

pub struct PoolView {
    pub id: Seq<char>,
    pub regions: Seq<Seq<char>>,
    pub units: Seq<UnitView>,
}

impl DeepView for Unit {
    type V = UnitView;

    open spec fn deep_view(&self) -> UnitView {
        UnitView {
            id: self.id@,
            exp: self.exp,
            cost: self.cost,
            replenish: (self.replenish.0@, self.replenish.1@),
            max: self.max,
            initial: self.initial,
            restrict: self.restrict.deep_view(),
        }
    }
}

impl DeepView for Pool {
    type V = PoolView;

    open spec fn deep_view(&self) -> PoolView {
        PoolView {
            id: self.id@,
            regions: self.regions.deep_view(),
            units: self.units.deep_view(),
        }
    }
}

/// The words joined, with a space between each two.
pub open spec fn join_words(ws: Seq<Seq<char>>) -> Seq<char>
    decreases ws.len(),
{
    if ws.len() == 0 {
        seq![]
    } else if ws.len() == 1 {
        ws[0]
    } else {
        join_words(ws.drop_last()) + seq![' '] + ws.last()
    }
}

/// A comma or a space, the separators of lists of names.
pub open spec fn opt_comma() -> Seq<char> {
    seq![',', ' ']
}

/// A comma or a tab, what ends a unit's name.
pub open spec fn tab_or_comma() -> Seq<char> {
    seq![',', '\t']
}

/// A `unit` entry: the unit's name up to the first comma or tab, then the
/// words after it, of which the second is the experience, the fourth the
/// cost, the sixth and eighth the bounds of the replenishment rate, the
/// tenth the most units in the pool and the twelfth the units at the start
/// (`end_year` for none); a thirteenth word `restrict` is followed by the
/// names of the factions the unit is restricted to.
pub open spec fn unit_of(line: Seq<char>) -> Result<UnitView, ParseError> {
    let p = crate::chars::sep_pos(line, tab_or_comma(), false);
    if p >= line.len() {
        Err(ParseError::Missing("unit entry data"))
    } else {
        let id = trim(line.take(p as int));
        let data = fields(trim(line.skip((p + 1) as int)), seq![], true);
        if data.len() < 2 {
            Err(ParseError::Missing("unit exp"))
        } else if maybe_float_int(data[1]) is None {
            Err(ParseError::InvalidNumber("unit exp"))
        } else if data.len() < 4 {
            Err(ParseError::Missing("unit cost"))
        } else if maybe_float_int(data[3]) is None {
            Err(ParseError::InvalidNumber("unit cost"))
        } else if data.len() < 6 {
            Err(ParseError::Missing("unit replenish lower bound"))
        } else if !is_float_text(data[5]) {
            Err(ParseError::InvalidNumber("unit replenish lower bound"))
        } else if data.len() < 8 {
            Err(ParseError::Missing("unit replenish upper bound"))
        } else if !is_float_text(data[7]) {
            Err(ParseError::InvalidNumber("unit replenish upper bound"))
        } else if data.len() < 10 {
            Err(ParseError::Missing("unit pool max"))
        } else if maybe_float_int(data[9]) is None {
            Err(ParseError::InvalidNumber("unit pool max"))
        } else if data.len() < 12 {
            Err(ParseError::Missing("unit pool initial"))
        } else if data[11] != "end_year"@ && maybe_float_int(data[11]) is None {
            Err(ParseError::InvalidNumber("unit pool initial"))
        } else {
            Ok(
                UnitView {
                    id,
                    exp: maybe_float_int(data[1]).unwrap(),
                    cost: maybe_float_int(data[3]).unwrap(),
                    replenish: (data[5], data[7]),
                    max: maybe_float_int(data[9]).unwrap(),
                    initial: if data[11] == "end_year"@ {
                        0
                    } else {
                        maybe_float_int(data[11]).unwrap()
                    },
                    restrict: if data.len() > 13 && data[12] == "restrict"@ {
                        fields(join_words(data.skip(13)), opt_comma(), false)
                    } else {
                        seq![]
                    },
                },
            )
        }
    }
}

/// The units of a pool's entries: those of its `unit` lines, in order.
pub open spec fn units_of(es: Entries) -> Result<Seq<UnitView>, ParseError>
    decreases es.len(),
{
    if es.len() == 0 {
        Ok(seq![])
    } else {
        match units_of(es.drop_last()) {
            Err(e) => Err(e),
            Ok(p) => if es.last().0 != "unit"@ {
                Ok(p)
            } else {
                match es.last().1 {
                    None => Err(ParseError::Missing("pool entry data")),
                    Some(v) => match unit_of(v) {
                        Err(e) => Err(e),
                        Ok(u) => Ok(p.push(u)),
                    },
                }
            },
        }
    }
}

/// A pool record: its `pool` name, its `regions` (separated by commas or
/// spaces) and its units.
pub open spec fn pool_of(g: Seq<Seq<char>>) -> Result<PoolView, ParseError> {
    let es = record_entries(g);
    match line_value(es, "pool"@) {
        None => Err(ParseError::KeyNotFound("pool")),
        Some(id) => match line_value(es, "regions"@) {
            None => Err(ParseError::KeyNotFound("regions")),
            Some(rs) => match units_of(es) {
                Err(e) => Err(e),
                Ok(us) => Ok(PoolView { id, regions: fields(rs, opt_comma(), false), units: us }),
            },
        },
    }
}

pub open spec fn pool_reader() -> spec_fn(Seq<Seq<char>>) -> Result<PoolView, ParseError> {
    |g: Seq<Seq<char>>| pool_of(g)
}

/// The pools of a `descr_mercenaries.txt` text, in file order.
pub open spec fn pool_file(s: Seq<char>) -> Result<Seq<PoolView>, ParseError> {
    map_all(group_by_header(clean_lines(s), "pool"@), pool_reader())
}

fn chars2(a: char, b: char) -> (r: Vec<char>)
    ensures
        r@ == seq![a, b],
{
    let mut r: Vec<char> = Vec::new();
    r.push(a);
    r.push(b);
    assert(r@ =~= seq![a, b]);
    r
}

/// The words from `from` on, joined with spaces.
fn join_words_from(ws: &Vec<Vec<char>>, from: usize) -> (r: Vec<char>)
    requires
        from <= ws.len(),
    ensures
        r@ == join_words(views(ws@).skip(from as int)),
{
    let ghost wv = views(ws@);
    let mut r: Vec<char> = Vec::new();
    let mut i = from;
    assert(wv.subrange(from as int, from as int) =~= Seq::<Seq<char>>::empty());
    while i < ws.len()
        invariant
            from <= i <= ws.len(),
            wv == views(ws@),
            r@ == join_words(wv.subrange(from as int, i as int)),
        decreases ws.len() - i,
    {
        let ghost sub = wv.subrange(from as int, i + 1);
        assert(sub.drop_last() =~= wv.subrange(from as int, i as int));
        assert(sub.last() == ws@[i as int]@);
        if i > from {
            r.push(' ');
        }
        let mut k: usize = 0;
        let ghost start = r@;
        while k < ws[i].len()
            invariant
                0 <= k <= ws[i as int].len(),
                i < ws.len(),
                r@ == start + ws@[i as int]@.take(k as int),
            decreases ws[i as int].len() - k,
        {
            r.push(ws[i][k]);
            assert(ws@[i as int]@.take(k + 1) =~= ws@[i as int]@.take(k as int).push(ws@[i as int]@[k as int]));
            k += 1;
        }
        assert(ws@[i as int]@.take(ws@[i as int]@.len() as int) =~= ws@[i as int]@);
        if i > from {
            assert(r@ =~= join_words(sub.drop_last()) + seq![' '] + sub.last());
        } else {
            assert(sub.len() == 1);
            assert(r@ =~= sub[0]);
        }
        i += 1;
    }
    assert(wv.subrange(from as int, ws.len() as int) =~= wv.skip(from as int));
    r
}

/// A `unit` entry of a pool.
fn parse_unit(line: &Vec<char>) -> (r: Result<Unit, ParseError>)
    ensures
        res_deep(r) == unit_of(line@),
{
    let seps = chars2(',', '\t');
    let p = find_sep(line, 0, &seps, false);
    assert(line@.skip(0) =~= line@);
    if p >= line.len() {
        return Err(ParseError::Missing("unit entry data"));
    }
    let id = trim_chars(&subvec(line, 0, p));
    let rest = trim_chars(&subvec(line, p + 1, line.len()));
    assert(line@.subrange(0, p as int) =~= line@.take(p as int));
    assert(line@.subrange(p + 1, line.len() as int) =~= line@.skip(p + 1));
    let ws: Vec<char> = Vec::new();
    assert(ws@ =~= Seq::<char>::empty());
    let data = split_fields(&rest, &ws, true);
    let ghost dv = views(data@);
    if data.len() < 2 {
        return Err(ParseError::Missing("unit exp"));
    }
    assert(dv[1] == data@[1]@);
    let exp = match parse_maybe_float_int(&data[1]) {
        None => {
            return Err(ParseError::InvalidNumber("unit exp"));
        },
        Some(x) => x,
    };
    if data.len() < 4 {
        return Err(ParseError::Missing("unit cost"));
    }
    assert(dv[3] == data@[3]@);
    let cost = match parse_maybe_float_int(&data[3]) {
        None => {
            return Err(ParseError::InvalidNumber("unit cost"));
        },
        Some(x) => x,
    };
    if data.len() < 6 {
        return Err(ParseError::Missing("unit replenish lower bound"));
    }
    assert(dv[5] == data@[5]@);
    if !is_float_chars(&data[5]) {
        return Err(ParseError::InvalidNumber("unit replenish lower bound"));
    }
    if data.len() < 8 {
        return Err(ParseError::Missing("unit replenish upper bound"));
    }
    assert(dv[7] == data@[7]@);
    if !is_float_chars(&data[7]) {
        return Err(ParseError::InvalidNumber("unit replenish upper bound"));
    }
    if data.len() < 10 {
        return Err(ParseError::Missing("unit pool max"));
    }
    assert(dv[9] == data@[9]@);
    let max = match parse_maybe_float_int(&data[9]) {
        None => {
            return Err(ParseError::InvalidNumber("unit pool max"));
        },
        Some(x) => x,
    };
    if data.len() < 12 {
        return Err(ParseError::Missing("unit pool initial"));
    }
    assert(dv[11] == data@[11]@);
    let initial = if eq_str(&data[11], "end_year") {
        0
    } else {
        match parse_maybe_float_int(&data[11]) {
            None => {
                return Err(ParseError::InvalidNumber("unit pool initial"));
            },
            Some(x) => x,
        }
    };
    let restrict = if data.len() > 13 && eq_str(&data[12], "restrict") {
        assert(dv[12] == data@[12]@);
        let joined = join_words_from(&data, 13);
        let sep = chars2(',', ' ');
        strings_of(&split_fields(&joined, &sep, false))
    } else {
        Vec::new()
    };
    proof {
        if !(data.len() > 13 && dv[12] == "restrict"@) {
            assert(restrict.deep_view() =~= Seq::<Seq<char>>::empty());
        }
    }
    Ok(
        Unit {
            id: string_of(&id),
            exp,
            cost,
            replenish: (string_of(&data[5]), string_of(&data[7])),
            max,
            initial,
            restrict,
        },
    )
}

/// The units of a pool's entries.
fn parse_units(es: &Vec<(Vec<char>, Option<Vec<char>>)>) -> (r: Result<Vec<Unit>, ParseError>)
    ensures
        res_deep(r) == units_of(entries_view(es@)),
{
    let ghost ev = entries_view(es@);
    let mut out: Vec<Unit> = Vec::new();
    let mut i: usize = 0;
    assert(ev.take(0) =~= Seq::<(Seq<char>, Option<Seq<char>>)>::empty());
    assert(out.deep_view() =~= Seq::<UnitView>::empty());
    while i < es.len()
        invariant
            0 <= i <= es.len(),
            ev == entries_view(es@),
            units_of(ev.take(i as int)) == Ok::<Seq<UnitView>, ParseError>(out.deep_view()),
        decreases es.len() - i,
    {
        let ghost pre = ev.take(i + 1);
        assert(pre.drop_last() =~= ev.take(i as int));
        assert(pre.last() == ev[i as int]);
        if eq_str(&es[i].0, "unit") {
            match &es[i].1 {
                None => {
                    proof {
                        lemma_units_err(ev, i as int + 1, ParseError::Missing("pool entry data"));
                    }
                    return Err(ParseError::Missing("pool entry data"));
                },
                Some(v) => match parse_unit(v) {
                    Err(e) => {
                        proof {
                            lemma_units_err(ev, i as int + 1, e);
                        }
                        return Err(e);
                    },
                    Ok(u) => {
                        let ghost before = out.deep_view();
                        out.push(u);
                        assert(out.deep_view() =~= before.push(u.deep_view()));
                    },
                },
            }
        }
        i += 1;
    }
    assert(ev.take(es.len() as int) =~= ev);
    Ok(out)
}

proof fn lemma_units_err(es: Entries, k: int, e: ParseError)
    requires
        0 <= k <= es.len(),
        units_of(es.take(k)) == Err::<Seq<UnitView>, ParseError>(e),
    ensures
        units_of(es) == Err::<Seq<UnitView>, ParseError>(e),
    decreases es.len() - k,
{
    if k < es.len() {
        assert(es.take(k + 1).drop_last() =~= es.take(k));
        lemma_units_err(es, k + 1, e);
    } else {
        assert(es.take(k) =~= es);
    }
}

/// A pool record.
fn parse_pool(lines: &Vec<Vec<char>>) -> (r: Result<Pool, ParseError>)
    ensures
        res_deep(r) == pool_of(views(lines@)),
{
    let es = entries_of(lines);
    let id = match value_of(&es, "pool") {
        None => {
            return Err(ParseError::KeyNotFound("pool"));
        },
        Some(v) => v,
    };
    let rs = match value_of(&es, "regions") {
        None => {
            return Err(ParseError::KeyNotFound("regions"));
        },
        Some(v) => v,
    };
    let units = match parse_units(&es) {
        Err(e) => {
            return Err(e);
        },
        Ok(u) => u,
    };
    let sep = chars2(',', ' ');
    let regions = strings_of(&split_fields(&rs, &sep, false));
    Ok(Pool { id: string_of(&id), regions, units })
}

/// Reads the pools of a `descr_mercenaries.txt` text: comments cut, lines
/// trimmed and non-empty, grouped into records that each begin with a
/// `pool` line.
pub fn parse(data: &str, _mode: ParserMode) -> (res: Result<Vec<Pool>, ParseError>)
    requires
        leads_with(clean_lines(data@), "pool"@),
    ensures
        res_deep(res) == pool_file(data@),
{
    let ls = clean_lines_of(data);
    let gs = group_lines(ls, "pool");
    let ghost spec_gs = group_by_header(clean_lines(data@), "pool"@);
    let ghost f = pool_reader();
    let mut out: Vec<Pool> = Vec::new();
    let mut i: usize = 0;
    assert(spec_gs.take(0) =~= Seq::<Seq<Seq<char>>>::empty());
    assert(out.deep_view() =~= Seq::<PoolView>::empty());
    while i < gs.len()
        invariant
            0 <= i <= gs.len(),
            group_views(gs@) == spec_gs,
            spec_gs == group_by_header(clean_lines(data@), "pool"@),
            f == pool_reader(),
            map_all(spec_gs.take(i as int), f) == Ok::<_, ParseError>(out.deep_view()),
        decreases gs.len() - i,
    {
        proof {
            lemma_map_all_step(spec_gs, f, i as int);
        }
        assert(spec_gs[i as int] == views(gs@[i as int]@));
        match parse_pool(&gs[i]) {
            Err(e) => {
                proof {
                    lemma_map_all_err(spec_gs, f, i + 1, e);
                }
                return Err(e);
            },
            Ok(p) => {
                let ghost old = out.deep_view();
                out.push(p);
                assert(out.deep_view() =~= old.push(p.deep_view()));
            },
        }
        i += 1;
    }
    assert(spec_gs.take(gs.len() as int) =~= spec_gs);
    Ok(out)
}

} // verus!
