//! `descr_regions.txt`: the regions of the campaign map.
use vstd::prelude::*;

use crate::chars::{
    before, cut_lines_of, drop_empty, drop_empty_lines, fields, is_sep, lines, map_before,
    map_trim, pieces, sep_pos, split_fields, split_pieces, starts_with, strings_of, string_of,
    strip_cr, trim, trim_chars, trim_each, views,
};
use crate::numbers::{parse_u8, u8_text};
use crate::parse::manifest::ParserMode;
use crate::parse::ParseError;
use crate::records::{
    filter_prefix, find_with_prefix, first_with_prefix, group_views, lemma_map_all_err,
    lemma_map_all_step, map_all, opt_string, opt_view, res_deep, without_prefix,
};

verus! {

/// A region of the campaign map.
#[derive(Debug)]
pub struct Region {
    pub id: String,
    pub legion: Option<String>,
    pub city: String,
    pub color: (u8, u8, u8),
    pub hidden_resources: Vec<String>,
}

pub struct RegionView {
    pub id: Seq<char>,
    pub legion: Option<Seq<char>>,
    pub city: Seq<char>,
    pub color: (u8, u8, u8),
    pub hidden_resources: Seq<Seq<char>>,
}

impl DeepView for Region {
    type V = RegionView;

    open spec fn deep_view(&self) -> RegionView {
        RegionView {
            id: self.id@,
            legion: self.legion.deep_view(),
            city: self.city@,
            color: self.color,
            hidden_resources: self.hidden_resources.deep_view(),
        }
    }
}

pub open spec fn indented(l: Seq<char>) -> bool {
    l.len() > 0 && (l[0] == ' ' || l[0] == '\t')
}

/// The lines grouped into regions: a line that is not indented opens a new
/// region, an indented one joins the last; lines are kept trimmed, and
/// lines of white space alone are passed over.
pub open spec fn region_groups(ls: Seq<Seq<char>>) -> Seq<Seq<Seq<char>>>
    decreases ls.len(),
{
    if ls.len() == 0 {
        seq![]
    } else {
        let g = region_groups(ls.drop_last());
        let l = ls.last();
        if trim(l).len() == 0 {
            g
        } else if !indented(l) || g.len() == 0 {
            g.push(seq![trim(l)])
        } else {
            g.update(g.len() - 1, g.last().push(trim(l)))
        }
    }
}

/// Whether the first line that is not white space alone is not indented, so
/// that every indented line belongs to a region.
pub open spec fn regions_lead(ls: Seq<Seq<char>>) -> bool
    decreases ls.len(),
{
    if ls.len() == 0 {
        true
    } else if trim(ls[0]).len() == 0 {
        regions_lead(ls.drop_first())
    } else {
        !indented(ls[0])
    }
}

/// The lines that are not `none`.
pub open spec fn drop_none(ls: Seq<Seq<char>>) -> Seq<Seq<char>>
    decreases ls.len(),
{
    if ls.len() == 0 {
        seq![]
    } else {
        let r = drop_none(ls.drop_last());
        if ls.last() == "none"@ {
            r
        } else {
            r.push(ls.last())
        }
    }
}

/// A region's record. A `legion:` line (the whole line) names its legion;
/// of the other lines, the first is its id, the second its city, the fifth
/// its color as three numbers, and the sixth its hidden resources separated
/// by commas or spaces, with `none` left out.
pub open spec fn region_of(g: Seq<Seq<char>>) -> Result<RegionView, ParseError> {
    let legion = match first_with_prefix(g, "legion:"@) {
        Some(l) => Some(trim(l)),
        None => None,
    };
    let ls = without_prefix(g, "legion:"@);
    if ls.len() <= 4 {
        Err(ParseError::Missing("color line"))
    } else {
        let cs = fields(ls[4], seq![], true);
        if cs.len() < 1 {
            Err(ParseError::Missing("red"))
        } else if u8_text(cs[0]) is None {
            Err(ParseError::InvalidNumber("color"))
        } else if cs.len() < 2 {
            Err(ParseError::Missing("green"))
        } else if u8_text(cs[1]) is None {
            Err(ParseError::InvalidNumber("color"))
        } else if cs.len() < 3 {
            Err(ParseError::Missing("blue"))
        } else if u8_text(cs[2]) is None {
            Err(ParseError::InvalidNumber("color"))
        } else if ls.len() <= 5 {
            Err(ParseError::Missing("hidden_resources line"))
        } else {
            Ok(
                RegionView {
                    id: ls[0],
                    legion,
                    city: ls[1],
                    color: (
                        u8_text(cs[0]).unwrap(),
                        u8_text(cs[1]).unwrap(),
                        u8_text(cs[2]).unwrap(),
                    ),
                    hidden_resources: drop_none(map_trim(pieces(ls[5], seq![',', ' '], false))),
                },
            )
        }
    }
}

pub open spec fn region_reader() -> spec_fn(Seq<Seq<char>>) -> Result<RegionView, ParseError> {
    |g: Seq<Seq<char>>| region_of(g)
}

/// The lines of a `descr_regions.txt` text that the reader groups: comments
/// cut, empty lines dropped.
pub open spec fn region_lines(s: Seq<char>) -> Seq<Seq<char>> {
    drop_empty(map_before(lines(s), ';'))
}

/// The regions of a `descr_regions.txt` text, in file order.
pub open spec fn region_file(s: Seq<char>) -> Result<Seq<RegionView>, ParseError> {
    map_all(region_groups(region_lines(s)), region_reader())
}

fn group_regions(ls: &Vec<Vec<char>>) -> (r: Vec<Vec<Vec<char>>>)
    ensures
        group_views(r@) == region_groups(views(ls@)),
{
    let mut r: Vec<Vec<Vec<char>>> = Vec::new();
    let mut i: usize = 0;
    let ghost all = views(ls@);
    while i < ls.len()
        invariant
            0 <= i <= ls.len(),
            all == views(ls@),
            group_views(r@) == region_groups(all.take(i as int)),
        decreases ls.len() - i,
    {
        assert(all.take(i + 1).drop_last() =~= all.take(i as int));
        assert(all.take(i + 1).last() == ls@[i as int]@);
        let l = &ls[i];
        let t = trim_chars(l);
        let ghost old_g = group_views(r@);
        if t.len() == 0 {
        } else if !(l.len() > 0 && (l[0] == ' ' || l[0] == '\t')) || r.len() == 0 {
            let ghost tv = t@;
            let mut grp: Vec<Vec<char>> = Vec::new();
            grp.push(t);
            assert(views(grp@) =~= seq![tv]);
            r.push(grp);
            assert(group_views(r@) =~= old_g.push(seq![tv]));
        } else {
            let ghost tv = t@;
            let mut last = r.pop().unwrap();
            let ghost old_last = views(last@);
            last.push(t);
            assert(views(last@) =~= old_last.push(tv));
            r.push(last);
            assert(group_views(r@) =~= old_g.update(old_g.len() - 1, old_g.last().push(tv)));
        }
        i += 1;
    }
    assert(all.take(ls.len() as int) =~= all);
    r
}

fn without_none(ls: &Vec<Vec<char>>) -> (r: Vec<Vec<char>>)
    ensures
        views(r@) == drop_none(views(ls@)),
{
    let mut r: Vec<Vec<char>> = Vec::new();
    let mut i: usize = 0;
    let ghost all = views(ls@);
    while i < ls.len()
        invariant
            0 <= i <= ls.len(),
            all == views(ls@),
            views(r@) == drop_none(all.take(i as int)),
        decreases ls.len() - i,
    {
        assert(all.take(i + 1).drop_last() =~= all.take(i as int));
        assert(all.take(i + 1).last() == ls@[i as int]@);
        if !crate::chars::eq_str(&ls[i], "none") {
            let c = crate::chars::subvec(&ls[i], 0, ls[i].len());
            assert(c@ =~= ls@[i as int]@);
            let ghost old = r@;
            r.push(c);
            assert(views(r@) =~= views(old).push(c@));
        }
        i += 1;
    }
    assert(all.take(ls.len() as int) =~= all);
    r
}

fn parse_region(g: &Vec<Vec<char>>) -> (res: Result<Region, ParseError>)
    ensures
        res_deep(res) == region_of(views(g@)),
{
    let legion_line = find_with_prefix(g, "legion:");
    let legion = match legion_line {
        Some(l) => Some(string_of(&trim_chars(&l))),
        None => None,
    };
    let ls = filter_prefix(g, "legion:");
    if ls.len() <= 4 {
        return Err(ParseError::Missing("color line"));
    }
    let no_seps: Vec<char> = Vec::new();
    assert(no_seps@ =~= Seq::<char>::empty());
    let cs = split_fields(&ls[4], &no_seps, true);
    assert(views(ls@)[4] == ls@[4]@);
    if cs.len() < 1 {
        return Err(ParseError::Missing("red"));
    }
    assert(views(cs@)[0] == cs@[0]@);
    let red = match parse_u8(&cs[0]) {
        None => return Err(ParseError::InvalidNumber("color")),
        Some(x) => x,
    };
    if cs.len() < 2 {
        return Err(ParseError::Missing("green"));
    }
    assert(views(cs@)[1] == cs@[1]@);
    let green = match parse_u8(&cs[1]) {
        None => return Err(ParseError::InvalidNumber("color")),
        Some(x) => x,
    };
    if cs.len() < 3 {
        return Err(ParseError::Missing("blue"));
    }
    assert(views(cs@)[2] == cs@[2]@);
    let blue = match parse_u8(&cs[2]) {
        None => return Err(ParseError::InvalidNumber("color")),
        Some(x) => x,
    };
    if ls.len() <= 5 {
        return Err(ParseError::Missing("hidden_resources line"));
    }
    let seps = vec![',', ' '];
    assert(seps@ =~= seq![',', ' ']);
    let ps = split_pieces(&ls[5], &seps, false);
    assert(views(ls@)[5] == ls@[5]@);
    let tps = trim_each(&ps);
    let hidden = without_none(&tps);
    assert(views(ls@)[0] == ls@[0]@);
    assert(views(ls@)[1] == ls@[1]@);
    let r = Region {
        id: string_of(&ls[0]),
        legion,
        city: string_of(&ls[1]),
        color: (red, green, blue),
        hidden_resources: strings_of(&hidden),
    };
    assert(r.legion.deep_view() == match first_with_prefix(views(g@), "legion:"@) {
        Some(l) => Some(trim(l)),
        None => None,
    });
    Ok(r)
}

/// Read records come one for each group.
proof fn lemma_map_all_len(gs: Seq<Seq<Seq<char>>>)
    requires
        map_all(gs, region_reader()) is Ok,
    ensures
        map_all(gs, region_reader())->Ok_0.len() == gs.len(),
        forall|i: int|
            0 <= i < gs.len() ==> region_of(#[trigger] gs[i]) == Ok::<RegionView, ParseError>(
                map_all(gs, region_reader())->Ok_0[i],
            ),
    decreases gs.len(),
{
    if gs.len() > 0 {
        lemma_map_all_len(gs.drop_last());
        let f = region_reader();
        assert(f(gs.last()) == region_of(gs.last()));
        assert forall|i: int| 0 <= i < gs.len() implies region_of(#[trigger] gs[i]) == Ok::<
            RegionView,
            ParseError,
        >(map_all(gs, region_reader())->Ok_0[i]) by {
            if i < gs.len() - 1 {
                assert(gs[i] == gs.drop_last()[i]);
            }
        }
    }
}

/// Reading the groups with one of them replaced by a group that reads well
/// gives the same regions but at that place.
proof fn lemma_map_all_update(gs: Seq<Seq<Seq<char>>>, k: int, g: Seq<Seq<char>>)
    requires
        0 <= k < gs.len(),
        map_all(gs, region_reader()) is Ok,
        region_of(g) is Ok,
    ensures
        map_all(gs.update(k, g), region_reader()) == Ok::<Seq<RegionView>, ParseError>(
            map_all(gs, region_reader())->Ok_0.update(k, region_of(g)->Ok_0),
        ),
    decreases gs.len(),
{
    let f = region_reader();
    let gs2 = gs.update(k, g);
    lemma_map_all_len(gs.drop_last());
    assert(f(g) == region_of(g));
    assert(f(gs.last()) == region_of(gs.last()));
    if k == gs.len() - 1 {
        assert(gs2.drop_last() =~= gs.drop_last());
        assert(gs2.last() == g);
        let p = map_all(gs.drop_last(), f)->Ok_0;
        assert(p.push(region_of(gs.last())->Ok_0).update(k, region_of(g)->Ok_0) =~= p.push(
            region_of(g)->Ok_0,
        ));
    } else {
        assert(gs2.drop_last() =~= gs.drop_last().update(k, g));
        assert(gs2.last() == gs.last());
        lemma_map_all_update(gs.drop_last(), k, g);
        let p = map_all(gs.drop_last(), f)->Ok_0;
        let a = region_of(gs.last())->Ok_0;
        assert(p.update(k, region_of(g)->Ok_0).push(a) =~= p.push(a).update(k, region_of(g)->Ok_0));
    }
}

/// Leaving out the lines with a prefix, part by part.
proof fn lemma_without_prefix_concat(a: Seq<Seq<char>>, b: Seq<Seq<char>>, p: Seq<char>)
    ensures
        without_prefix(a + b, p) == without_prefix(a, p) + without_prefix(b, p),
    decreases b.len(),
{
    if b.len() == 0 {
        assert(a + b =~= a);
        assert(without_prefix(a, p) + without_prefix(b, p) =~= without_prefix(a, p));
    } else {
        lemma_without_prefix_concat(a, b.drop_last(), p);
        assert((a + b).drop_last() =~= a + b.drop_last());
        assert((a + b).last() == b.last());
        if !starts_with(b.last(), p) {
            assert(without_prefix(a, p) + without_prefix(b.drop_last(), p).push(b.last())
                =~= (without_prefix(a, p) + without_prefix(b.drop_last(), p)).push(b.last()));
        }
    }
}

/// Lines none of which has the prefix are all kept.
proof fn lemma_without_prefix_none(a: Seq<Seq<char>>, p: Seq<char>)
    requires
        forall|i: int| 0 <= i < a.len() ==> !starts_with(#[trigger] a[i], p),
    ensures
        without_prefix(a, p) == a,
    decreases a.len(),
{
    if a.len() > 0 {
        lemma_without_prefix_none(a.drop_last(), p);
        assert(a.drop_last().push(a.last()) =~= a);
    }
}

/// A region's block with a `legion:` line added after its first line, where
/// it had none, reads as the same region with that legion.
proof fn lemma_legion_line(g: Seq<Seq<char>>, l: Seq<char>)
    requires
        g.len() >= 1,
        forall|i: int| 0 <= i < g.len() ==> !starts_with(#[trigger] g[i], "legion:"@),
        starts_with(l, "legion:"@),
        region_of(g) is Ok,
    ensures
        region_of(g.insert(1, l)) == Ok::<RegionView, ParseError>(
            RegionView { legion: Some(trim(l)), ..region_of(g)->Ok_0 },
        ),
{
    let p = "legion:"@;
    let g2 = g.insert(1, l);
    let head = g.take(1);
    let tail = g.skip(1);
    assert(g2 =~= head + (seq![l] + tail));
    assert(g =~= head + tail);
    lemma_without_prefix_concat(head, seq![l] + tail, p);
    lemma_without_prefix_concat(seq![l], tail, p);
    lemma_without_prefix_concat(head, tail, p);
    assert(seq![l].drop_last() =~= Seq::<Seq<char>>::empty());
    assert(without_prefix(Seq::<Seq<char>>::empty(), p) =~= Seq::<Seq<char>>::empty());
    assert(seq![l].last() == l);
    assert(without_prefix(seq![l], p) =~= Seq::<Seq<char>>::empty());
    assert(seq![] + without_prefix(tail, p) =~= without_prefix(tail, p));
    assert(without_prefix(g2, p) == without_prefix(g, p));
    lemma_without_prefix_none(g, p);
    assert(first_with_prefix(g, p) is None) by {
        lemma_first_with_prefix_none(g, p);
    }
    assert(g2[0] == g[0]);
    assert(!starts_with(g2[0], p));
    assert(g2.drop_first()[0] == l);
    assert(first_with_prefix(g2.drop_first(), p) == Some(l));
    assert(first_with_prefix(g2, p) == Some(l));
}

/// No line has the prefix, so none is found.
proof fn lemma_first_with_prefix_none(a: Seq<Seq<char>>, p: Seq<char>)
    requires
        forall|i: int| 0 <= i < a.len() ==> !starts_with(#[trigger] a[i], p),
    ensures
        first_with_prefix(a, p) is None,
    decreases a.len(),
{
    if a.len() > 0 {
        assert forall|i: int| 0 <= i < a.drop_first().len() implies !starts_with(
            #[trigger] a.drop_first()[i],
            p,
        ) by {
            assert(a.drop_first()[i] == a[i + 1]);
        }
        lemma_first_with_prefix_none(a.drop_first(), p);
    }
}

/// A `legion:` line added to one block, after its first line, changes the
/// region of that block alone.
proof fn lemma_legion_line_in_block(gs: Seq<Seq<Seq<char>>>, k: int, l: Seq<char>)
    requires
        map_all(gs, region_reader()) is Ok,
        0 <= k < gs.len(),
        gs[k].len() >= 1,
        forall|i: int| 0 <= i < gs[k].len() ==> !starts_with(#[trigger] gs[k][i], "legion:"@),
        starts_with(l, "legion:"@),
    ensures
        ({
            let rs = map_all(gs, region_reader())->Ok_0;
            let after = map_all(gs.update(k, gs[k].insert(1, l)), region_reader());
            &&& after is Ok
            &&& after->Ok_0.len() == rs.len()
            &&& forall|j: int| 0 <= j < rs.len() && j != k ==> after->Ok_0[j] == rs[j]
            &&& after->Ok_0[k].id == rs[k].id
            &&& after->Ok_0[k].city == rs[k].city
            &&& after->Ok_0[k].color == rs[k].color
            &&& after->Ok_0[k].hidden_resources == rs[k].hidden_resources
            &&& after->Ok_0[k].legion == Some(trim(l))
        }),
{
    lemma_map_all_len(gs);
    assert(region_of(gs[k]) is Ok);
    lemma_legion_line(gs[k], l);
    lemma_map_all_update(gs, k, gs[k].insert(1, l));
}

/// A line that opens a region's block: not white space alone, not indented.
pub open spec fn opens_region(l: Seq<char>) -> bool {
    trim(l).len() > 0 && !indented(l)
}

/// Lines that begin with an opening line make at least one block, the first
/// holding that line.
proof fn lemma_groups_head(y: Seq<Seq<char>>)
    requires
        y.len() > 0,
        opens_region(y[0]),
    ensures
        region_groups(y).len() > 0,
        region_groups(y)[0].len() > 0,
        region_groups(y)[0][0] == trim(y[0]),
    decreases y.len(),
{
    if y.len() > 1 {
        lemma_groups_head(y.drop_last());
        assert(y.drop_last()[0] == y[0]);
        let g = region_groups(y.drop_last());
        let l = y.last();
        if trim(l).len() == 0 {
        } else if !indented(l) {
            assert(g.push(seq![trim(l)])[0] == g[0]);
        } else {
            let n = g.len() - 1;
            if n == 0 {
                assert(g[0].push(trim(l))[0] == g[0][0]);
            } else {
                assert(g.update(n, g.last().push(trim(l)))[0] == g[0]);
            }
        }
    } else {
        assert(y.drop_last() =~= Seq::<Seq<char>>::empty());
        assert(region_groups(Seq::<Seq<char>>::empty()) =~= Seq::<Seq<Seq<char>>>::empty());
        assert(region_groups(y) =~= seq![seq![trim(y[0])]]);
    }
}

/// Blocks of lines put together: where the second part begins with an
/// opening line, its blocks follow those of the first.
proof fn lemma_groups_concat(x: Seq<Seq<char>>, y: Seq<Seq<char>>)
    requires
        y.len() > 0,
        opens_region(y[0]),
    ensures
        region_groups(x + y) == region_groups(x) + region_groups(y),
    decreases y.len(),
{
    assert((x + y).drop_last() =~= x + y.drop_last());
    assert((x + y).last() == y.last());
    if y.len() == 1 {
        assert(x + y.drop_last() =~= x);
        assert(y.drop_last() =~= Seq::<Seq<char>>::empty());
        assert(region_groups(x) + region_groups(y) =~= region_groups(x).push(seq![trim(y[0])]));
    } else {
        assert(y.drop_last()[0] == y[0]);
        lemma_groups_concat(x, y.drop_last());
        lemma_groups_head(y.drop_last());
        let gx = region_groups(x);
        let gy = region_groups(y.drop_last());
        let l = y.last();
        if trim(l).len() == 0 {
        } else if !indented(l) {
            assert((gx + gy).push(seq![trim(l)]) =~= gx + gy.push(seq![trim(l)]));
        } else {
            assert((gx + gy).update((gx + gy).len() - 1, (gx + gy).last().push(trim(l))) =~= gx
                + gy.update(gy.len() - 1, gy.last().push(trim(l))));
        }
    }
}

/// An indented line put right after the opening line of the first block
/// joins that block as its second line; the other blocks stay.
proof fn lemma_groups_second_line(h: Seq<char>, l: Seq<char>, b: Seq<Seq<char>>)
    requires
        opens_region(h),
        trim(l).len() > 0,
        indented(l),
    ensures
        region_groups(seq![h, l] + b).len() == region_groups(seq![h] + b).len(),
        region_groups(seq![h] + b).len() > 0,
        region_groups(seq![h] + b)[0].len() > 0,
        region_groups(seq![h, l] + b) == region_groups(seq![h] + b).update(
            0,
            region_groups(seq![h] + b)[0].insert(1, trim(l)),
        ),
    decreases b.len(),
{
    let y1 = seq![h] + b;
    let y2 = seq![h, l] + b;
    lemma_groups_head(y1);
    if b.len() == 0 {
        assert(y1 =~= seq![h]);
        assert(y2 =~= seq![h, l]);
        assert(seq![h, l].drop_last() =~= seq![h]);
        assert(seq![h].drop_last() =~= Seq::<Seq<char>>::empty());
        assert(region_groups(Seq::<Seq<char>>::empty()) =~= Seq::<Seq<Seq<char>>>::empty());
        assert(seq![h, l].last() == l);
        assert(seq![h].last() == h);
        assert(region_groups(seq![h]) =~= seq![seq![trim(h)]]);
        assert(region_groups(seq![h, l]) =~= seq![seq![trim(h)].push(trim(l))]);
        assert(seq![trim(h)].insert(1, trim(l)) =~= seq![trim(h)].push(trim(l)));
    } else {
        lemma_groups_second_line(h, l, b.drop_last());
        assert(y1.drop_last() =~= seq![h] + b.drop_last());
        assert(y2.drop_last() =~= seq![h, l] + b.drop_last());
        assert(y1.last() == b.last());
        assert(y2.last() == b.last());
        let g1 = region_groups(seq![h] + b.drop_last());
        let g2 = region_groups(seq![h, l] + b.drop_last());
        let t = trim(l);
        let c = b.last();
        if trim(c).len() == 0 {
        } else if !indented(c) {
            assert(g1.push(seq![trim(c)]).update(0, g1.push(seq![trim(c)])[0].insert(1, t))
                =~= g2.push(seq![trim(c)]));
        } else {
            let n = g1.len() - 1;
            if n == 0 {
                assert(g1[0].push(trim(c)).insert(1, t) =~= g1[0].insert(1, t).push(trim(c)));
            }
            assert(g1.update(n, g1.last().push(trim(c))).update(
                0,
                g1.update(n, g1.last().push(trim(c)))[0].insert(1, t),
            ) =~= g2.update(n, g2.last().push(trim(c))));
        }
    }
}

/// Adding a `legion:` line to the block of one region, right after the
/// block's first line, where the block had none, changes that region alone:
/// it gets the legion, and keeps its id, city, color and hidden resources;
/// every other region reads as before. `ls` are the lines that the reader
/// groups, and the block is the one that line `j` opens.
pub proof fn law_legion_line_changes_one_region(ls: Seq<Seq<char>>, j: int, l: Seq<char>)
    requires
        map_all(region_groups(ls), region_reader()) is Ok,
        0 <= j < ls.len(),
        opens_region(ls[j]),
        indented(l),
        starts_with(trim(l), "legion:"@),
        forall|i: int|
            0 <= i < region_groups(ls)[region_groups(ls.take(j)).len() as int].len() ==> !starts_with(
                #[trigger] region_groups(ls)[region_groups(ls.take(j)).len() as int][i],
                "legion:"@,
            ),
    ensures
        ({
            let k = region_groups(ls.take(j)).len() as int;
            let rs = map_all(region_groups(ls), region_reader())->Ok_0;
            let after = map_all(region_groups(ls.insert(j + 1, l)), region_reader());
            &&& after is Ok
            &&& after->Ok_0.len() == rs.len()
            &&& 0 <= k < rs.len()
            &&& forall|q: int| 0 <= q < rs.len() && q != k ==> after->Ok_0[q] == rs[q]
            &&& after->Ok_0[k].id == rs[k].id
            &&& after->Ok_0[k].city == rs[k].city
            &&& after->Ok_0[k].color == rs[k].color
            &&& after->Ok_0[k].hidden_resources == rs[k].hidden_resources
            &&& after->Ok_0[k].legion == Some(trim(trim(l)))
        }),
{
    let a = ls.take(j);
    let y = ls.skip(j);
    let b = ls.skip(j + 1);
    let h = ls[j];
    assert(trim(l).len() > 0) by {
        assert("legion:"@.len() == 7) by {
            reveal_strlit("legion:");
        }
    }
    assert(ls =~= a + y);
    assert(y =~= seq![h] + b);
    assert(ls.insert(j + 1, l) =~= a + (seq![h, l] + b));
    lemma_groups_concat(a, y);
    lemma_groups_concat(a, seq![h, l] + b);
    lemma_groups_second_line(h, l, b);
    let ga = region_groups(a);
    let gy = region_groups(y);
    let k = ga.len() as int;
    let g = gy[0];
    assert(region_groups(ls)[k] == g);
    assert(region_groups(ls.insert(j + 1, l)) =~= region_groups(ls).update(k, g.insert(1, trim(l))));
    lemma_groups_head(y);
    lemma_map_all_len(region_groups(ls));
    assert(k < region_groups(ls).len());
    lemma_legion_line_in_block(region_groups(ls), k, trim(l));
}

/// The first separator of a text that has one lies in that part.
proof fn lemma_sep_pos_prefix(x: Seq<char>, y: Seq<char>, seps: Seq<char>)
    requires
        sep_pos(x, seps, false) < x.len(),
    ensures
        sep_pos(x + y, seps, false) == sep_pos(x, seps, false),
    decreases x.len(),
{
    if !is_sep(x[0], seps, false) {
        assert((x + y).drop_first() =~= x.drop_first() + y);
        lemma_sep_pos_prefix(x.drop_first(), y, seps);
    }
}

/// A text without separators comes whole before the first separator of
/// what follows.
proof fn lemma_sep_pos_none(x: Seq<char>, y: Seq<char>, seps: Seq<char>)
    requires
        forall|i: int| 0 <= i < x.len() ==> !is_sep(#[trigger] x[i], seps, false),
    ensures
        sep_pos(x + y, seps, false) == x.len() + sep_pos(y, seps, false),
    decreases x.len(),
{
    if x.len() == 0 {
        assert(x + y =~= y);
    } else {
        assert((x + y).drop_first() =~= x.drop_first() + y);
        assert forall|i: int| 0 <= i < x.drop_first().len() implies !is_sep(#[trigger] x.drop_first()[i], seps, false) by {
            assert(x.drop_first()[i] == x[i + 1]);
        }
        lemma_sep_pos_none(x.drop_first(), y, seps);
    }
}

/// A text that is empty or ends a line: its lines come before those of what
/// follows.
proof fn lemma_lines_concat(x: Seq<char>, y: Seq<char>)
    requires
        x.len() == 0 || x.last() == '\n',
    ensures
        lines(x + y) == lines(x) + lines(y),
    decreases x.len(),
{
    if x.len() == 0 {
        assert(x + y =~= y);
        assert(lines(x) + lines(y) =~= lines(y));
    } else {
        let nl = seq!['\n'];
        crate::chars::lemma_sep_pos_bound(x, nl, false);
        let p = sep_pos(x, nl, false);
        if p >= x.len() {
            assert(nl[0] == x[x.len() - 1]);
            assert(is_sep(x[x.len() - 1], nl, false));
        }
        lemma_sep_pos_prefix(x, y, nl);
        assert((x + y).take(p as int) =~= x.take(p as int));
        assert((x + y).skip((p + 1) as int) =~= x.skip((p + 1) as int) + y);
        let rest = x.skip((p + 1) as int);
        if rest.len() > 0 {
            assert(rest.last() == x.last());
        }
        lemma_lines_concat(rest, y);
        assert(lines(x + y) =~= lines(x) + lines(y));
    }
}

/// One line with its line ending is that line.
proof fn lemma_lines_one(l: Seq<char>)
    requires
        forall|i: int| 0 <= i < l.len() ==> l[i] != '\n',
    ensures
        lines(l + seq!['\n']) == seq![strip_cr(l)],
{
    let nl = seq!['\n'];
    assert forall|i: int| 0 <= i < l.len() implies !is_sep(#[trigger] l[i], nl, false) by {
        assert(l[i] != '\n');
    }
    lemma_sep_pos_none(l, nl, nl);
    assert(is_sep(nl[0], nl, false));
    let t = l + nl;
    assert(t.take(l.len() as int) =~= l);
    assert(t.skip((l.len() + 1) as int) =~= Seq::<char>::empty());
    assert(lines(Seq::<char>::empty()) =~= Seq::<Seq<char>>::empty());
    assert(seq![strip_cr(l)] + Seq::<Seq<char>>::empty() =~= seq![strip_cr(l)]);
}

/// Dropping the empty lines, part by part.
proof fn lemma_drop_empty_concat(x: Seq<Seq<char>>, y: Seq<Seq<char>>)
    ensures
        drop_empty(x + y) == drop_empty(x) + drop_empty(y),
    decreases y.len(),
{
    if y.len() == 0 {
        assert(x + y =~= x);
        assert(drop_empty(x) + drop_empty(y) =~= drop_empty(x));
    } else {
        lemma_drop_empty_concat(x, y.drop_last());
        assert((x + y).drop_last() =~= x + y.drop_last());
        assert((x + y).last() == y.last());
        if y.last().len() > 0 {
            assert(drop_empty(x) + drop_empty(y.drop_last()).push(y.last()) =~= (drop_empty(x)
                + drop_empty(y.drop_last())).push(y.last()));
        }
    }
}

/// The reader's lines of a text in two parts, the first empty or ending a
/// line.
proof fn lemma_region_lines_concat(x: Seq<char>, y: Seq<char>)
    requires
        x.len() == 0 || x.last() == '\n',
    ensures
        region_lines(x + y) == region_lines(x) + region_lines(y),
{
    lemma_lines_concat(x, y);
    assert(map_before(lines(x) + lines(y), ';') =~= map_before(lines(x), ';') + map_before(lines(y), ';'));
    lemma_drop_empty_concat(map_before(lines(x), ';'), map_before(lines(y), ';'));
}

/// Adding the line `l` (indented, a `legion:` line once trimmed, with no
/// `;` comment) to a `descr_regions.txt` text right after the first line of
/// a region's block, where the block had no legion line, changes that
/// region alone: it gets the legion and keeps its id, city, color and
/// hidden resources; every other region reads as before. The block's first
/// line is the last line that the reader keeps from the text before `pos`,
/// where a line ends.
pub proof fn law_legion_line_in_text(d: Seq<char>, pos: int, l: Seq<char>)
    requires
        region_file(d) is Ok,
        0 < pos <= d.len(),
        d[pos - 1] == '\n',
        region_lines(d.take(pos)).len() > 0,
        opens_region(region_lines(d.take(pos)).last()),
        indented(l),
        starts_with(trim(l), "legion:"@),
        forall|i: int| 0 <= i < l.len() ==> l[i] != '\n' && l[i] != ';',
        l.last() != '\r',
        forall|i: int|
            0 <= i < region_groups(region_lines(d))[region_groups(
                region_lines(d.take(pos)).drop_last(),
            ).len() as int].len() ==> !starts_with(
                #[trigger] region_groups(region_lines(d))[region_groups(
                    region_lines(d.take(pos)).drop_last(),
                ).len() as int][i],
                "legion:"@,
            ),
    ensures
        ({
            let k = region_groups(region_lines(d.take(pos)).drop_last()).len() as int;
            let rs = region_file(d)->Ok_0;
            let after = region_file(d.take(pos) + l + seq!['\n'] + d.skip(pos));
            &&& after is Ok
            &&& after->Ok_0.len() == rs.len()
            &&& 0 <= k < rs.len()
            &&& forall|q: int| 0 <= q < rs.len() && q != k ==> after->Ok_0[q] == rs[q]
            &&& after->Ok_0[k].id == rs[k].id
            &&& after->Ok_0[k].city == rs[k].city
            &&& after->Ok_0[k].color == rs[k].color
            &&& after->Ok_0[k].hidden_resources == rs[k].hidden_resources
            &&& after->Ok_0[k].legion == Some(trim(trim(l)))
        }),
{
    let a = d.take(pos);
    let b = d.skip(pos);
    let m = l + seq!['\n'];
    let d2 = d.take(pos) + l + seq!['\n'] + d.skip(pos);
    assert(d =~= a + b);
    assert(d2 =~= a + (m + b));
    assert(a.last() == '\n');
    lemma_region_lines_concat(a, b);
    lemma_region_lines_concat(a, m + b);
    assert(m.last() == '\n');
    lemma_region_lines_concat(m, b);
    lemma_lines_one(l);
    assert(strip_cr(l) == l);
    crate::chars::lemma_sep_pos_bound(l, seq![';'], false);
    if sep_pos(l, seq![';'], false) < l.len() {
        assert(is_sep(l[sep_pos(l, seq![';'], false) as int], seq![';'], false));
        assert(seq![';'].contains(l[sep_pos(l, seq![';'], false) as int]));
    }
    assert(before(l, ';') =~= l);
    assert(map_before(seq![l], ';') =~= seq![l]);
    assert(seq![l].drop_last() =~= Seq::<Seq<char>>::empty());
    assert(drop_empty(Seq::<Seq<char>>::empty()) =~= Seq::<Seq<char>>::empty());
    assert(drop_empty(seq![l]) =~= seq![l]);
    assert(region_lines(m) =~= seq![l]);
    let ra = region_lines(a);
    let rb = region_lines(b);
    let ls = region_lines(d);
    let j = ra.len() - 1;
    assert(ls == ra + rb);
    assert(ls.take(j) =~= ra.drop_last());
    assert(ls[j] == ra.last());
    assert(ls.insert(j + 1, l) =~= ra + (seq![l] + rb));
    assert(region_lines(d2) == ra + (seq![l] + rb));
    law_legion_line_changes_one_region(ls, j, l);
}

/// Whether the first line of a `descr_regions.txt` text that is not white
/// space alone is not indented; readers of the text test this first.
pub fn regions_lead_in(data: &str) -> (b: bool)
    ensures
        b == regions_lead(region_lines(data@)),
{
    let cut = cut_lines_of(data);
    let ls = drop_empty_lines(&cut);
    let ghost lv = views(ls@);
    assert(lv == region_lines(data@));
    let mut i: usize = 0;
    assert(lv.skip(0) =~= lv);
    while i < ls.len()
        invariant
            0 <= i <= ls.len(),
            lv == views(ls@),
            lv == region_lines(data@),
            regions_lead(lv) == regions_lead(lv.skip(i as int)),
        decreases ls.len() - i,
    {
        assert(lv.skip(i as int)[0] == ls@[i as int]@);
        let t = trim_chars(&ls[i]);
        if t.len() > 0 {
            let l = &ls[i];
            return !(l.len() > 0 && (l[0] == ' ' || l[0] == '\t'));
        }
        assert(lv.skip(i as int).drop_first() =~= lv.skip(i + 1));
        i += 1;
    }
    assert(lv.skip(ls.len() as int) =~= Seq::<Seq<char>>::empty());
    true
}

/// Reads the regions of a `descr_regions.txt` text: comments cut and empty
/// lines dropped, grouped into regions that each begin with a line that is
/// not indented.
pub fn parse(data: &str, _mode: ParserMode) -> (res: Result<Vec<Region>, ParseError>)
    requires
        regions_lead(region_lines(data@)),
    ensures
        res_deep(res) == region_file(data@),
{
    let cut = cut_lines_of(data);
    let ls = drop_empty_lines(&cut);
    let gs = group_regions(&ls);
    let ghost spec_gs = region_groups(region_lines(data@));
    let ghost f = region_reader();
    let mut out: Vec<Region> = Vec::new();
    let mut i: usize = 0;
    assert(spec_gs.take(0) =~= Seq::<Seq<Seq<char>>>::empty());
    assert(out.deep_view() =~= Seq::<RegionView>::empty());
    while i < gs.len()
        invariant
            0 <= i <= gs.len(),
            group_views(gs@) == spec_gs,
            spec_gs == region_groups(region_lines(data@)),
            f == region_reader(),
            map_all(spec_gs.take(i as int), f) == Ok::<_, ParseError>(out.deep_view()),
        decreases gs.len() - i,
    {
        proof {
            lemma_map_all_step(spec_gs, f, i as int);
        }
        assert(spec_gs[i as int] == views(gs@[i as int]@));
        assert(f(spec_gs[i as int]) == region_of(spec_gs[i as int]));
        match parse_region(&gs[i]) {
            Err(e) => {
                proof {
                    lemma_map_all_err(spec_gs, f, i + 1, e);
                }
                return Err(e);
            },
            Ok(m) => {
                let ghost old = out.deep_view();
                out.push(m);
                assert(out.deep_view() =~= old.push(m.deep_view()));
            },
        }
        i += 1;
    }
    assert(spec_gs.take(gs.len() as int) =~= spec_gs);
    Ok(out)
}

} // verus!
