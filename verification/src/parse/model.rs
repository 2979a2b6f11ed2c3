//! Facts about units and buildings from which the site's model is built:
//! what kind of unit it is, who may recruit it, and the least settlement
//! that recruits it.
use vstd::prelude::*;

use crate::chars::{contains_str, has_substring};
use crate::parse::descr_regions::Region;
use crate::parse::descr_sm_factions::Faction;
use crate::parse::eval::{
    evaluate, evaluation, faction_verdict, is_faction_evaluator, is_region_evaluator_as,
    lemma_faction_evaluators_agree, lemma_region_as_evaluators_agree, region_verdict, well_founded,
    Evaluator,
};
use crate::parse::export_descr_buildings::{
    building_view, buildings_view, req_view, reqs_view, Building, BuildingView, ReqView, Requires,
};
use crate::parse::export_descr_unit::{Attr, Unit, WeaponAttr};
use indexmap::IndexMap;
pub use crate::site::{build_model, RawModel};

verus! {

/// Whether a unit is a ship: its category names one.
pub fn is_ship(unit: &Unit) -> (b: bool)
    ensures
        b == has_substring(unit.category@, "ship"@),
{
    contains_str(&crate::chars::chars_of(unit.category.as_str()), "ship")
}

/// Whether a unit has the attribute `a`, for one without data.
pub open spec fn has_attr(attrs: Seq<Attr>, a: Attr) -> bool {
    exists|i: int| 0 <= i < attrs.len() && #[trigger] attrs[i] == a
}

/// Whether a unit is a general's bodyguard.
pub fn is_general(unit: &Unit) -> (b: bool)
    ensures
        b == has_attr(unit.stats.attributes@, Attr::GeneralUnit),
{
    let attrs = &unit.stats.attributes;
    let mut i: usize = 0;
    while i < attrs.len()
        invariant
            0 <= i <= attrs.len(),
            attrs == &unit.stats.attributes,
            forall|j: int| 0 <= j < i ==> attrs@[j] != Attr::GeneralUnit,
        decreases attrs.len() - i,
    {
        if matches!(attrs[i], Attr::GeneralUnit) {
            return true;
        }
        i += 1;
    }
    false
}

/// Whether a unit can form a horde.
pub fn can_horde(unit: &Unit) -> (b: bool)
    ensures
        b == has_attr(unit.stats.attributes@, Attr::CanHorde),
{
    let attrs = &unit.stats.attributes;
    let mut i: usize = 0;
    while i < attrs.len()
        invariant
            0 <= i <= attrs.len(),
            attrs == &unit.stats.attributes,
            forall|j: int| 0 <= j < i ==> attrs@[j] != Attr::CanHorde,
        decreases attrs.len() - i,
    {
        if matches!(attrs[i], Attr::CanHorde) {
            return true;
        }
        i += 1;
    }
    false
}

/// Whether a unit rides a mount.
pub fn has_mount(unit: &Unit) -> (b: bool)
    ensures
        b == unit.stats.mount is Some,
{
    unit.stats.mount.is_some()
}

/// The weapon attributes that make a spear.
pub open spec fn is_spear_attr(a: WeaponAttr) -> bool {
    match a {
        WeaponAttr::LightSpear | WeaponAttr::Spear | WeaponAttr::ShortPike | WeaponAttr::LongPike
        | WeaponAttr::SpearBonus(_) => true,
        _ => false,
    }
}

/// Whether a unit's primary weapon is a spear.
pub fn has_spears(unit: &Unit) -> (b: bool)
    ensures
        b == exists|i: int|
            0 <= i < unit.stats.primary_weapon.attributes@.len() && is_spear_attr(
                #[trigger] unit.stats.primary_weapon.attributes@[i],
            ),
{
    let attrs = &unit.stats.primary_weapon.attributes;
    let mut i: usize = 0;
    while i < attrs.len()
        invariant
            0 <= i <= attrs.len(),
            attrs == &unit.stats.primary_weapon.attributes,
            forall|j: int| 0 <= j < i ==> !is_spear_attr(#[trigger] attrs@[j]),
        decreases attrs.len() - i,
    {
        let a = attrs[i];
        if matches!(
            a,
            WeaponAttr::LightSpear | WeaponAttr::Spear | WeaponAttr::ShortPike | WeaponAttr::LongPike
                | WeaponAttr::SpearBonus(_)
        ) {
            assert(is_spear_attr(attrs@[i as int]));
            return true;
        }
        i += 1;
    }
    false
}

/// The event of the first general's upgrade among the attributes.
pub open spec fn first_upgrade(attrs: Seq<Attr>) -> Option<Seq<char>>
    decreases attrs.len(),
{
    if attrs.len() == 0 {
        None
    } else {
        match attrs[0] {
            Attr::GeneralUnitUpgrade(e) => Some(e@),
            _ => first_upgrade(attrs.drop_first()),
        }
    }
}

/// The event upon which a general's bodyguard is upgraded, if any.
pub fn general_upgrade_event(unit: &Unit) -> (r: Option<String>)
    ensures
        match r {
            Some(s) => first_upgrade(unit.stats.attributes@) == Some(s@),
            None => first_upgrade(unit.stats.attributes@) is None,
        },
{
    let attrs = &unit.stats.attributes;
    let mut i: usize = 0;
    assert(attrs@.skip(0) =~= attrs@);
    while i < attrs.len()
        invariant
            0 <= i <= attrs.len(),
            attrs == &unit.stats.attributes,
            first_upgrade(attrs@) == first_upgrade(attrs@.skip(i as int)),
        decreases attrs.len() - i,
    {
        assert(attrs@.skip(i as int)[0] == attrs@[i as int]);
        if let Attr::GeneralUnitUpgrade(e) = &attrs[i] {
            return Some(e.clone());
        }
        assert(attrs@.skip(i as int).drop_first() =~= attrs@.skip(i + 1));
        i += 1;
    }
    None
}

/// A copy of a list of names.
pub(crate) fn copy_names(v: &Vec<String>) -> (r: Vec<String>)
    ensures
        r.deep_view() == v.deep_view(),
{
    let mut r: Vec<String> = Vec::new();
    let mut i: usize = 0;
    while i < v.len()
        invariant
            0 <= i <= v.len(),
            r.deep_view() == v.deep_view().take(i as int),
        decreases v.len() - i,
    {
        let ghost before = r.deep_view();
        let c = v[i].clone();
        assert(c@ == v@[i as int]@);
        r.push(c);
        assert(r.deep_view() =~= before.push(v@[i as int]@));
        assert(r.deep_view() =~= v.deep_view().take(i + 1));
        i += 1;
    }
    assert(v.deep_view().take(v.len() as int) =~= v.deep_view());
    r
}

/// The requirement that a unit's owners make: one of its factions.
pub fn require_ownership(unit: &Unit) -> (r: Requires)
    ensures
        req_view(r) == ReqView::Factions(unit.ownership.deep_view()),
{
    Requires::Factions(copy_names(&unit.ownership))
}

/// The requirement that none of the events has happened.
pub open spec fn no_events(events: Seq<Seq<char>>) -> ReqView {
    ReqView::And(
        Seq::new(events.len(), |i: int| ReqView::Not(Box::new(ReqView::MajorEvent(events[i])))),
    )
}

/// The requirement that none of the events has happened.
pub fn require_no_events(events: &Vec<String>) -> (r: Requires)
    ensures
        req_view(r) == no_events(events.deep_view()),
{
    let mut out: Vec<Requires> = Vec::new();
    let mut i: usize = 0;
    assert(reqs_view(out@) =~= Seq::<ReqView>::empty());
    while i < events.len()
        invariant
            0 <= i <= events.len(),
            reqs_view(out@) == Seq::new(
                i as nat,
                |k: int| ReqView::Not(Box::new(ReqView::MajorEvent(events.deep_view()[k]))),
            ),
        decreases events.len() - i,
    {
        let ghost before = out@;
        let c = events[i].clone();
        assert(c@ == events@[i as int]@);
        let ghost inner = Requires::MajorEvent(c);
        assert(req_view(inner) == ReqView::MajorEvent(c@));
        let x = Requires::Not(Box::new(Requires::MajorEvent(c)));
        assert(req_view(x) == ReqView::Not(Box::new(ReqView::MajorEvent(events@[i as int]@))));
        out.push(x);
        assert(out@.drop_last() =~= before);
        assert(reqs_view(out@) == reqs_view(before).push(req_view(x)));
        assert(reqs_view(out@) =~= Seq::new(
            (i + 1) as nat,
            |k: int| ReqView::Not(Box::new(ReqView::MajorEvent(events.deep_view()[k]))),
        ));
        i += 1;
    }
    Requires::And(out)
}

/// The tech level of a settlement size: 0 for a village up to 5 for a huge
/// city, 99 for any other.
pub open spec fn tech_level_of(s: Seq<char>) -> u32 {
    if s == "village"@ {
        0
    } else if s == "town"@ {
        1
    } else if s == "large_town"@ {
        2
    } else if s == "city"@ {
        3
    } else if s == "large_city"@ {
        4
    } else if s == "huge_city"@ {
        5
    } else {
        99
    }
}

/// The tech levels of the settlement sizes, from the least: a village is
/// 0, a town 1, a large town 2, a city 3, a large city 4 and a huge city 5;
/// any other size 99, after them all.
pub proof fn law_tech_levels(s: Seq<char>)
    ensures
        tech_level_of("village"@) == 0,
        tech_level_of("town"@) == 1,
        tech_level_of("large_town"@) == 2,
        tech_level_of("city"@) == 3,
        tech_level_of("large_city"@) == 4,
        tech_level_of("huge_city"@) == 5,
        s != "village"@ && s != "town"@ && s != "large_town"@ && s != "city"@ && s != "large_city"@
            && s != "huge_city"@ ==> tech_level_of(s) == 99,
{
    reveal_strlit("village");
    reveal_strlit("town");
    reveal_strlit("large_town");
    reveal_strlit("city");
    reveal_strlit("large_city");
    reveal_strlit("huge_city");
    assert("town"@ != "village"@) by {
        assert("town"@.len() != "village"@.len());
    }
    assert("large_town"@ != "village"@) by {
        assert("large_town"@.len() != "village"@.len());
    }
    assert("large_town"@ != "town"@) by {
        assert("large_town"@.len() != "town"@.len());
    }
    assert("city"@ != "village"@) by {
        assert("city"@.len() != "village"@.len());
    }
    assert("city"@ != "town"@) by {
        assert("city"@[0] != "town"@[0]);
    }
    assert("city"@ != "large_town"@) by {
        assert("city"@.len() != "large_town"@.len());
    }
    assert("large_city"@ != "village"@) by {
        assert("large_city"@.len() != "village"@.len());
    }
    assert("large_city"@ != "town"@) by {
        assert("large_city"@.len() != "town"@.len());
    }
    assert("large_city"@ != "large_town"@) by {
        assert("large_city"@[6] != "large_town"@[6]);
    }
    assert("large_city"@ != "city"@) by {
        assert("large_city"@.len() != "city"@.len());
    }
    assert("huge_city"@ != "village"@) by {
        assert("huge_city"@.len() != "village"@.len());
    }
    assert("huge_city"@ != "town"@) by {
        assert("huge_city"@.len() != "town"@.len());
    }
    assert("huge_city"@ != "large_town"@) by {
        assert("huge_city"@.len() != "large_town"@.len());
    }
    assert("huge_city"@ != "city"@) by {
        assert("huge_city"@.len() != "city"@.len());
    }
    assert("huge_city"@ != "large_city"@) by {
        assert("huge_city"@.len() != "large_city"@.len());
    }
}

/// The tech level of a settlement size.
pub fn tech_level(s: &str) -> (n: u32)
    ensures
        n == tech_level_of(s@),
{
    let v = crate::chars::chars_of(s);
    if crate::chars::eq_str(&v, "village") {
        0
    } else if crate::chars::eq_str(&v, "town") {
        1
    } else if crate::chars::eq_str(&v, "large_town") {
        2
    } else if crate::chars::eq_str(&v, "city") {
        3
    } else if crate::chars::eq_str(&v, "large_city") {
        4
    } else if crate::chars::eq_str(&v, "huge_city") {
        5
    } else {
        99
    }
}

/// The units that a building level recruits, each with the level's tech
/// level.
pub open spec fn level_pairs(b: BuildingView) -> Seq<(Seq<char>, u32)> {
    Seq::new(b.caps.len(), |j: int| (b.caps[j].unit, tech_level_of(b.min)))
}

/// The units that the building levels recruit, each with its tech level, in
/// order.
pub open spec fn unit_levels(bs: Seq<BuildingView>) -> Seq<(Seq<char>, u32)>
    decreases bs.len(),
{
    if bs.len() == 0 {
        seq![]
    } else {
        unit_levels(bs.drop_last()) + level_pairs(bs.last())
    }
}

/// The index of the entry of `k`, or -1.
pub open spec fn level_index(m: Seq<(Seq<char>, u32)>, k: Seq<char>) -> int
    decreases m.len(),
{
    if m.len() == 0 {
        -1
    } else if m.last().0 == k {
        m.len() - 1
    } else {
        level_index(m.drop_last(), k)
    }
}

/// The map with `k` at level `v` where it has no lower one.
pub open spec fn keep_lowest(m: Seq<(Seq<char>, u32)>, k: Seq<char>, v: u32) -> Seq<(Seq<char>, u32)> {
    let j = level_index(m, k);
    if j < 0 {
        m.push((k, v))
    } else if m[j].1 > v {
        m.update(j, (k, v))
    } else {
        m
    }
}

/// The lowest level of each unit among the pairs, in the order the units
/// first appear.
pub open spec fn lowest_levels(ps: Seq<(Seq<char>, u32)>) -> Seq<(Seq<char>, u32)>
    decreases ps.len(),
{
    if ps.len() == 0 {
        seq![]
    } else {
        keep_lowest(lowest_levels(ps.drop_last()), ps.last().0, ps.last().1)
    }
}

pub open spec fn levels_view(m: Seq<(String, u32)>) -> Seq<(Seq<char>, u32)> {
    Seq::new(m.len(), |i: int| (m[i].0@, m[i].1))
}

/// Records that unit `k` is recruited at level `v`.
fn keep_lowest_in(m: &mut Vec<(String, u32)>, k: &String, v: u32)
    ensures
        levels_view(final(m)@) == keep_lowest(levels_view(old(m)@), k@, v),
{
    let ghost mv = levels_view(m@);
    let mut j = m.len();
    assert(mv.take(j as int) =~= mv);
    while j > 0
        invariant
            j <= m.len(),
            mv == levels_view(m@),
            mv == levels_view(old(m)@),
            level_index(mv, k@) == level_index(mv.take(j as int), k@),
        decreases j,
    {
        let ghost pre = mv.take(j as int);
        assert(pre.drop_last() =~= mv.take(j - 1));
        assert(pre.last() == mv[j - 1]);
        if m[j - 1].0 == *k {
            assert(level_index(mv, k@) == j - 1);
            if m[j - 1].1 > v {
                m.set(j - 1, (k.clone(), v));
                assert(levels_view(m@) =~= mv.update(j - 1, (k@, v)));
            }
            return;
        }
        j -= 1;
    }
    assert(mv.take(0) =~= Seq::<(Seq<char>, u32)>::empty());
    m.push((k.clone(), v));
    assert(levels_view(m@) =~= mv.push((k@, v)));
}

/// The lowest tech level at which each unit is recruited, in the order the
/// units first appear among the buildings' levels.
pub fn build_tech_levels(raw_buildings: &Vec<Building>) -> (r: Vec<(String, u32)>)
    ensures
        levels_view(r@) == lowest_levels(unit_levels(buildings_view(raw_buildings@))),
{
    let ghost bv = buildings_view(raw_buildings@);
    let mut m: Vec<(String, u32)> = Vec::new();
    let mut i: usize = 0;
    assert(bv.take(0) =~= Seq::<BuildingView>::empty());
    assert(levels_view(m@) =~= Seq::<(Seq<char>, u32)>::empty());
    while i < raw_buildings.len()
        invariant
            0 <= i <= raw_buildings.len(),
            bv == buildings_view(raw_buildings@),
            levels_view(m@) == lowest_levels(unit_levels(bv.take(i as int))),
        decreases raw_buildings.len() - i,
    {
        let b = &raw_buildings[i];
        assert(bv[i as int] == building_view(*b));
        let level = tech_level(b.min.as_str());
        let ghost done = unit_levels(bv.take(i as int));
        let ghost lp = level_pairs(bv[i as int]);
        assert(bv.take(i + 1).drop_last() =~= bv.take(i as int));
        assert(unit_levels(bv.take(i + 1)) == done + lp);
        let mut j: usize = 0;
        assert(done + lp.take(0) =~= done);
        while j < b.caps.len()
            invariant
                0 <= j <= b.caps.len(),
                i < raw_buildings.len(),
                b == &raw_buildings[i as int],
                bv[i as int] == building_view(*b),
                lp == level_pairs(bv[i as int]),
                level == tech_level_of(b.min@),
                levels_view(m@) == lowest_levels(done + lp.take(j as int)),
            decreases b.caps.len() - j,
        {
            let ghost next = done + lp.take(j + 1);
            assert(next.drop_last() =~= done + lp.take(j as int));
            assert(next.last() == (b.caps@[j as int].unit@, level));
            keep_lowest_in(&mut m, &b.caps[j].unit, level);
            j += 1;
        }
        assert(lp.take(b.caps.len() as int) =~= lp);
        i += 1;
    }
    assert(bv.take(raw_buildings.len() as int) =~= bv);
    m
}

proof fn lemma_level_index(m: Seq<(Seq<char>, u32)>, k: Seq<char>)
    ensures
        -1 <= level_index(m, k) < m.len(),
        level_index(m, k) >= 0 ==> m[level_index(m, k)].0 == k,
        level_index(m, k) < 0 ==> forall|i: int| 0 <= i < m.len() ==> #[trigger] m[i].0 != k,
    decreases m.len(),
{
    if m.len() > 0 && m.last().0 != k {
        lemma_level_index(m.drop_last(), k);
        assert forall|i: int| 0 <= i < m.len() - 1 implies #[trigger] m[i] == m.drop_last()[i] by {}
    }
}

/// Whether `m` holds, for each unit among the pairs, exactly one entry, with
/// the lowest level that the pairs give it.
pub open spec fn is_lowest_map(m: Seq<(Seq<char>, u32)>, ps: Seq<(Seq<char>, u32)>) -> bool {
    &&& forall|i: int, j: int| 0 <= i < j < m.len() ==> #[trigger] m[i].0 != #[trigger] m[j].0
    &&& forall|i: int| 0 <= i < m.len() ==> #[trigger] ps.contains(m[i])
    &&& forall|i: int, j: int|
        0 <= i < m.len() && 0 <= j < ps.len() && #[trigger] m[i].0 == #[trigger] ps[j].0 ==> m[i].1
            <= ps[j].1
    &&& forall|j: int| 0 <= j < ps.len() ==> exists|i: int| 0 <= i < m.len() && #[trigger] m[i].0 == #[trigger] ps[j].0
}

/// The tech levels that the buildings give are, for each unit that they
/// recruit, the lowest level at which any of them recruits it, once.
pub proof fn law_lowest_levels(ps: Seq<(Seq<char>, u32)>)
    ensures
        is_lowest_map(lowest_levels(ps), ps),
    decreases ps.len(),
{
    if ps.len() > 0 {
        let pre = ps.drop_last();
        law_lowest_levels(pre);
        let m0 = lowest_levels(pre);
        let (k, v) = ps.last();
        lemma_level_index(m0, k);
        let m = lowest_levels(ps);
        assert(m == keep_lowest(m0, k, v));
        assert forall|j: int| 0 <= j < pre.len() implies #[trigger] ps[j] == pre[j] by {}
        assert(ps[ps.len() - 1] == (k, v));
        let x = level_index(m0, k);
        assert forall|i: int, j: int| 0 <= i < j < m.len() implies #[trigger] m[i].0 != #[trigger] m[j].0 by {
            if x < 0 && j == m0.len() {
                assert(m0[i].0 != k);
            } else if x >= 0 && (i == x || j == x) {
                if i == x {
                    assert(m0[j].0 != m0[x].0);
                } else {
                    assert(m0[i].0 != m0[x].0);
                }
            } else {
                assert(m0[i].0 != m0[j].0);
            }
        }
        assert forall|i: int| 0 <= i < m.len() implies #[trigger] ps.contains(m[i]) by {
            if m[i] == (k, v) {
                assert(ps[ps.len() - 1] == m[i]);
            } else {
                assert(m[i] == m0[i]);
                assert(pre.contains(m0[i]));
                let j = choose|j: int| 0 <= j < pre.len() && pre[j] == m0[i];
                assert(ps[j] == m0[i]);
            }
        }
        assert forall|i: int, j: int|
            0 <= i < m.len() && 0 <= j < ps.len() && #[trigger] m[i].0 == #[trigger] ps[j].0 implies m[i].1
            <= ps[j].1 by {
            if j == ps.len() - 1 {
                if x < 0 {
                    if i < m0.len() {
                        assert(m0[i].0 != k);
                    }
                } else {
                    if i != x {
                        assert(m0[i].0 != m0[x].0);
                    }
                }
            } else {
                assert(ps[j] == pre[j]);
                if m[i] != m0[i] || i >= m0.len() {
                    if i < m0.len() {
                        assert(m0[i].0 == pre[j].0);
                        assert(m0[i].1 <= pre[j].1);
                    } else {
                        assert(x < 0);
                        assert(exists|i2: int| 0 <= i2 < m0.len() && #[trigger] m0[i2].0 == #[trigger] pre[j].0);
                        let i2 = choose|i2: int| 0 <= i2 < m0.len() && #[trigger] m0[i2].0 == #[trigger] pre[j].0;
                        assert(m0[i2].0 != k);
                    }
                }
            }
        }
        assert forall|j: int| 0 <= j < ps.len() implies exists|i: int| 0 <= i < m.len() && #[trigger] m[i].0 == #[trigger] ps[j].0 by {
            if j == ps.len() - 1 {
                if x < 0 {
                    assert(m[m0.len() as int].0 == ps[j].0);
                } else {
                    assert(m[x].0 == ps[j].0);
                }
            } else {
                assert(ps[j] == pre[j]);
                let i = choose|i: int| 0 <= i < m0.len() && #[trigger] m0[i].0 == #[trigger] pre[j].0;
                if x >= 0 && i == x {
                    assert(m[x].0 == ps[j].0);
                } else {
                    assert(m[i] == m0[i]);
                }
            }
        }
    }
}

/// Whether a faction may have what a requirement asks for.
pub fn available_to_faction(
    req: &Requires,
    faction: &Faction,
    aliases: &Vec<(String, Requires)>,
) -> (b: bool)
    requires
        well_founded(*req, aliases@),
    ensures
        b == faction_verdict(*req, aliases@, *faction),
        forall|e: Evaluator| is_faction_evaluator(e, *faction) ==> b == evaluation(*req, aliases@, e),
{
    let ev = Evaluator::faction(faction);
    let b = evaluate(req, aliases, &ev);
    assert forall|e: Evaluator| is_faction_evaluator(e, *faction) implies b == evaluation(
        *req,
        aliases@,
        e,
    ) by {
        lemma_faction_evaluators_agree(*req, aliases@, ev, e, *faction);
    }
    b
}

/// Whether a region may have what a requirement asks for, as the faction
/// `faction` (if any) sees it.
pub fn available_in_region(
    req: &Requires,
    region: &Region,
    faction: Option<&Faction>,
    aliases: &Vec<(String, Requires)>,
) -> (b: bool)
    requires
        well_founded(*req, aliases@),
    ensures
        b == region_verdict(*req, aliases@, *region, opt_faction(faction)),
        forall|e: Evaluator| #[trigger]
            is_region_evaluator_as(e, *region, opt_faction(faction)) ==> b == evaluation(
                *req,
                aliases@,
                e,
            ),
{
    let ev = Evaluator::region_as(region, faction);
    let b = evaluate(req, aliases, &ev);
    assert forall|e: Evaluator| #[trigger]
        is_region_evaluator_as(e, *region, opt_faction(faction)) implies b == evaluation(
        *req,
        aliases@,
        e,
    ) by {
        lemma_region_as_evaluators_agree(*req, aliases@, ev, e, *region, opt_faction(faction));
    }
    b
}

/// The faction that an optional reference names.
pub open spec fn opt_faction(f: Option<&Faction>) -> Option<Faction> {
    match f {
        Some(f) => Some(*f),
        None => None,
    }
}

/// A copy of a requirement.
pub fn clone_req(r: &Requires) -> (c: Requires)
    ensures
        req_view(c) == req_view(*r),
    decreases r,
{
    match r {
        Requires::Nothing => Requires::Nothing,
        Requires::False => Requires::False,
        Requires::Resource { id, factionwide } => Requires::Resource {
            id: id.clone(),
            factionwide: *factionwide,
        },
        Requires::HiddenResource { id, factionwide } => Requires::HiddenResource {
            id: id.clone(),
            factionwide: *factionwide,
        },
        Requires::BuildingPresent { id, level, queued, factionwide } => Requires::BuildingPresent {
            id: id.clone(),
            level: match level {
                Some(l) => Some(l.clone()),
                None => None,
            },
            queued: *queued,
            factionwide: *factionwide,
        },
        Requires::MajorEvent(e) => Requires::MajorEvent(e.clone()),
        Requires::EventCount { event, count } => Requires::EventCount {
            event: event.clone(),
            count: *count,
        },
        Requires::Factions(fs) => Requires::Factions(copy_names(fs)),
        Requires::BuildingFactions(fs) => Requires::BuildingFactions(copy_names(fs)),
        Requires::Port => Requires::Port,
        Requires::IsPlayer => Requires::IsPlayer,
        Requires::IsToggled(t) => Requires::IsToggled(t.clone()),
        Requires::Diplomacy { status, faction } => Requires::Diplomacy {
            status: *status,
            faction: faction.clone(),
        },
        Requires::Capability { capability, amount } => Requires::Capability {
            capability: capability.clone(),
            amount: *amount,
        },
        Requires::NoBuildingTagged { tag, queued, factionwide } => Requires::NoBuildingTagged {
            tag: tag.clone(),
            queued: *queued,
            factionwide: *factionwide,
        },
        Requires::Religion { id, cmp, amount } => Requires::Religion {
            id: id.clone(),
            cmp: *cmp,
            amount: *amount,
        },
        Requires::MajorityReligion(x) => Requires::MajorityReligion(x.clone()),
        Requires::OfficialReligion => Requires::OfficialReligion,
        Requires::Alias(a) => Requires::Alias(a.clone()),
        Requires::Unknown => Requires::Unknown,
        Requires::Not(x) => {
            let inner = clone_req(x);
            Requires::Not(Box::new(inner))
        },
        Requires::And(items) => Requires::And(clone_reqs(items)),
        Requires::Or(items) => Requires::Or(clone_reqs(items)),
    }
}

/// Copies of a list of requirements.
pub fn clone_reqs(items: &Vec<Requires>) -> (c: Vec<Requires>)
    ensures
        reqs_view(c@) == reqs_view(items@),
    decreases items,
{
    let mut out: Vec<Requires> = Vec::new();
    let mut i: usize = 0;
    assert(items@.take(0) =~= Seq::<Requires>::empty());
    while i < items.len()
        invariant
            0 <= i <= items.len(),
            reqs_view(out@) == reqs_view(items@.take(i as int)),
        decreases items.len() - i,
    {
        proof {
            vstd::std_specs::vec::axiom_vec_index_decreases(*items, i as int);
        }
        let x = clone_req(&items[i]);
        let ghost before = out@;
        out.push(x);
        assert(out@.drop_last() =~= before);
        assert(items@.take(i + 1).drop_last() =~= items@.take(i as int));
        assert(items@.take(i + 1).last() == items@[i as int]);
        i += 1;
    }
    assert(items@.take(items.len() as int) =~= items@);
    out
}

/// The events of the generals' upgrades among the units, each once, in the
/// order in which they first appear.
pub open spec fn upgrade_events(us: Seq<Unit>) -> Seq<Seq<char>>
    decreases us.len(),
{
    if us.len() == 0 {
        seq![]
    } else {
        let p = upgrade_events(us.drop_last());
        match first_upgrade(us.last().stats.attributes@) {
            Some(e) => if p.contains(e) {
                p
            } else {
                p.push(e)
            },
            None => p,
        }
    }
}

/// Whether no two units have the same id.
pub open spec fn ids_unique(us: Seq<Unit>) -> bool {
    forall|i: int, j: int| 0 <= i < j < us.len() ==> #[trigger] us[i].id@ != #[trigger] us[j].id@
}

/// Whether a unit with the id is among the units.
pub open spec fn is_known(us: Seq<Unit>, id: Seq<char>) -> bool {
    exists|k: int| 0 <= k < us.len() && #[trigger] us[k].id@ == id
}

/// Whether every unit that a building level recruits is among the units.
pub open spec fn recruits_known(bs: Seq<Building>, us: Seq<Unit>) -> bool {
    forall|i: int, j: int|
        0 <= i < bs.len() && 0 <= j < bs[i].caps@.len() ==> is_known(us, #[trigger] bs[i].caps@[j].unit@)
}

/// The owners of the unit with the id, where there is one.
pub open spec fn owners_of(us: Seq<Unit>, id: Seq<char>) -> Seq<Seq<char>>
    decreases us.len(),
{
    if us.len() == 0 {
        seq![]
    } else if us.last().id@ == id {
        us.last().ownership.deep_view()
    } else {
        owners_of(us.drop_last(), id)
    }
}

/// The requirement under which a building level lets a unit be recruited:
/// the unit's own, the level's, and one of its owners.
pub open spec fn recruit_req(b: Building, j: int, us: Seq<Unit>) -> (Seq<char>, ReqView) {
    (
        b.caps@[j].unit@,
        ReqView::And(
            seq![
                req_view(b.caps@[j].req),
                req_view(b.req),
                ReqView::Factions(owners_of(us, b.caps@[j].unit@)),
            ],
        ),
    )
}

/// The units that building levels recruit, each with its requirement, in
/// order.
pub open spec fn cap_pairs(bs: Seq<Building>, us: Seq<Unit>) -> Seq<(Seq<char>, ReqView)>
    decreases bs.len(),
{
    if bs.len() == 0 {
        seq![]
    } else {
        cap_pairs(bs.drop_last(), us) + Seq::new(
            bs.last().caps@.len(),
            |j: int| recruit_req(bs.last(), j, us),
        )
    }
}

/// The generals' bodyguards, each with its requirement: one of its owners,
/// and the event of its upgrade, or where it has none that no upgrade's
/// event has happened.
pub open spec fn general_pairs(us: Seq<Unit>, events: Seq<Seq<char>>) -> Seq<(Seq<char>, ReqView)>
    decreases us.len(),
{
    if us.len() == 0 {
        seq![]
    } else {
        let p = general_pairs(us.drop_last(), events);
        let u = us.last();
        if has_attr(u.stats.attributes@, Attr::GeneralUnit) {
            p.push(
                (
                    u.id@,
                    ReqView::And(
                        seq![
                            ReqView::Factions(u.ownership.deep_view()),
                            upgrade_req(u.stats.attributes@, events),
                        ],
                    ),
                ),
            )
        } else {
            p
        }
    }
}

/// The event of a bodyguard's upgrade, or where it has none that no
/// upgrade's event has happened.
pub open spec fn upgrade_req(attrs: Seq<Attr>, events: Seq<Seq<char>>) -> ReqView {
    match first_upgrade(attrs) {
        Some(e) => ReqView::MajorEvent(e),
        None => no_events(events),
    }
}

/// The units that can form a horde, each with the requirement of one of
/// its owners.
pub open spec fn horde_pairs(us: Seq<Unit>) -> Seq<(Seq<char>, ReqView)>
    decreases us.len(),
{
    if us.len() == 0 {
        seq![]
    } else {
        let p = horde_pairs(us.drop_last());
        let u = us.last();
        if has_attr(u.stats.attributes@, Attr::CanHorde) {
            p.push((u.id@, ReqView::Factions(u.ownership.deep_view())))
        } else {
            p
        }
    }
}

/// The index of the group of `k`, or -1.
pub open spec fn group_index(g: Seq<(Seq<char>, Seq<ReqView>)>, k: Seq<char>) -> int
    decreases g.len(),
{
    if g.len() == 0 {
        -1
    } else if g.last().0 == k {
        g.len() - 1
    } else {
        group_index(g.drop_last(), k)
    }
}

/// The requirements grouped by unit, in the order in which the units first
/// appear.
pub open spec fn group_reqs(ps: Seq<(Seq<char>, ReqView)>) -> Seq<(Seq<char>, Seq<ReqView>)>
    decreases ps.len(),
{
    if ps.len() == 0 {
        seq![]
    } else {
        let g = group_reqs(ps.drop_last());
        let (k, r) = ps.last();
        let j = group_index(g, k);
        if j < 0 {
            g.push((k, seq![r]))
        } else {
            g.update(j, (k, g[j].1.push(r)))
        }
    }
}

/// What each unit requires: any of the ways in which it can be had.
pub open spec fn unit_requires(bs: Seq<Building>, us: Seq<Unit>) -> Seq<(Seq<char>, ReqView)> {
    or_groups(
        group_reqs(cap_pairs(bs, us) + general_pairs(us, upgrade_events(us)) + horde_pairs(us)),
    )
}

pub open spec fn groups_view(g: Seq<(String, Vec<Requires>)>) -> Seq<(Seq<char>, Seq<ReqView>)> {
    Seq::new(g.len(), |i: int| (g[i].0@, reqs_view(g[i].1@)))
}

pub open spec fn unit_reqs_view(m: Seq<(String, Requires)>) -> Seq<(Seq<char>, ReqView)> {
    Seq::new(m.len(), |i: int| (m[i].0@, req_view(m[i].1)))
}

/// Adds the requirement `r` to the group of unit `k`.
fn add_to_group(g: &mut Vec<(String, Vec<Requires>)>, k: String, r: Requires)
    ensures
        groups_view(final(g)@) == ({
            let gv = groups_view(old(g)@);
            let j = group_index(gv, k@);
            if j < 0 {
                gv.push((k@, seq![req_view(r)]))
            } else {
                gv.update(j, (k@, gv[j].1.push(req_view(r))))
            }
        }),
{
    let ghost gv = groups_view(g@);
    let ghost rv = req_view(r);
    let mut j = g.len();
    assert(gv.take(j as int) =~= gv);
    while j > 0
        invariant
            j <= g.len(),
            gv == groups_view(g@),
            gv == groups_view(old(g)@),
            rv == req_view(r),
            group_index(gv, k@) == group_index(gv.take(j as int), k@),
        decreases j,
    {
        let ghost pre = gv.take(j as int);
        assert(pre.drop_last() =~= gv.take(j - 1));
        assert(pre.last() == gv[j - 1]);
        if g[j - 1].0 == k {
            assert(group_index(gv, k@) == j - 1);
            let (name, mut items) = g.remove(j - 1);
            let ghost before = items@;
            items.push(r);
            assert(items@.drop_last() =~= before);
            g.insert(j - 1, (name, items));
            assert(groups_view(g@) =~= gv.update(j - 1, (k@, gv[j - 1].1.push(rv))));
            return;
        }
        j -= 1;
    }
    assert(gv.take(0) =~= Seq::<(Seq<char>, Seq<ReqView>)>::empty());
    let ghost kv = k@;
    let mut items: Vec<Requires> = Vec::new();
    items.push(r);
    assert(items@.drop_last() =~= Seq::<Requires>::empty());
    assert(reqs_view(Seq::<Requires>::empty()) =~= Seq::<ReqView>::empty());
    assert(reqs_view(items@) =~= seq![rv]);
    g.push((k, items));
    assert(groups_view(g@) =~= gv.push((kv, seq![rv])));
}

/// The position of the unit with the id.
fn unit_index(units: &Vec<Unit>, id: &String) -> (k: usize)
    requires
        is_known(units@, id@),
        ids_unique(units@),
    ensures
        k < units@.len(),
        units@[k as int].id@ == id@,
        owners_of(units@, id@) == units@[k as int].ownership.deep_view(),
{
    let mut i: usize = 0;
    while i < units.len()
        invariant
            0 <= i <= units.len(),
            ids_unique(units@),
            forall|j: int| 0 <= j < i ==> #[trigger] units@[j].id@ != id@,
            is_known(units@, id@),
        decreases units.len() - i,
    {
        if units[i].id == *id {
            proof {
                lemma_owners_of(units@, i as int);
            }
            return i;
        }
        i += 1;
    }
    proof {
        let k = choose|k: int| 0 <= k < units@.len() && #[trigger] units@[k].id@ == id@;
        assert(units@[k].id@ != id@);
    }
    0
}

proof fn lemma_owners_of(us: Seq<Unit>, k: int)
    requires
        0 <= k < us.len(),
        ids_unique(us),
    ensures
        owners_of(us, us[k].id@) == us[k].ownership.deep_view(),
    decreases us.len(),
{
    if k < us.len() - 1 {
        assert(us.last() == us[us.len() - 1]);
        assert(us[k].id@ != us[us.len() - 1].id@);
        assert forall|i: int, j: int| 0 <= i < j < us.drop_last().len() implies #[trigger] us.drop_last()[i].id@
            != #[trigger] us.drop_last()[j].id@ by {
            assert(us.drop_last()[i] == us[i] && us.drop_last()[j] == us[j]);
        }
        assert(us.drop_last()[k] == us[k]);
        lemma_owners_of(us.drop_last(), k);
    }
}

proof fn lemma_general_step(us: Seq<Unit>, k: int, evs: Seq<Seq<char>>)
    requires
        0 <= k < us.len(),
    ensures
        general_pairs(us.take(k + 1), evs) == if has_attr(us[k].stats.attributes@, Attr::GeneralUnit) {
            general_pairs(us.take(k), evs).push(
                (
                    us[k].id@,
                    ReqView::And(
                        seq![
                            ReqView::Factions(us[k].ownership.deep_view()),
                            upgrade_req(us[k].stats.attributes@, evs),
                        ],
                    ),
                ),
            )
        } else {
            general_pairs(us.take(k), evs)
        },
{
    assert(us.take(k + 1).drop_last() =~= us.take(k));
    assert(us.take(k + 1).last() == us[k]);
}

proof fn lemma_reqs_view2(rs: Seq<Requires>)
    requires
        rs.len() == 2,
    ensures
        reqs_view(rs) == seq![req_view(rs[0]), req_view(rs[1])],
{
    assert(rs.drop_last().drop_last() =~= Seq::<Requires>::empty());
    assert(reqs_view(rs.drop_last().drop_last()) =~= Seq::<ReqView>::empty());
    assert(rs.drop_last().last() == rs[0]);
    assert(rs.last() == rs[1]);
    assert(reqs_view(rs.drop_last()) == reqs_view(rs.drop_last().drop_last()).push(
        req_view(rs.drop_last().last()),
    ));
    assert(reqs_view(rs) == reqs_view(rs.drop_last()).push(req_view(rs.last())));
    assert(reqs_view(rs) =~= seq![req_view(rs[0]), req_view(rs[1])]);
}

proof fn lemma_reqs_view3(rs: Seq<Requires>)
    requires
        rs.len() == 3,
    ensures
        reqs_view(rs) == seq![req_view(rs[0]), req_view(rs[1]), req_view(rs[2])],
{
    lemma_reqs_view2(rs.drop_last());
    assert(rs.drop_last()[0] == rs[0] && rs.drop_last()[1] == rs[1]);
    assert(reqs_view(rs) =~= seq![req_view(rs[0]), req_view(rs[1]), req_view(rs[2])]);
}

/// The distinct events of the generals' upgrades.
fn general_events(units: &Vec<Unit>) -> (r: Vec<String>)
    ensures
        r.deep_view() == upgrade_events(units@),
{
    let mut out: Vec<String> = Vec::new();
    let mut i: usize = 0;
    assert(units@.take(0) =~= Seq::<Unit>::empty());
    assert(out.deep_view() =~= Seq::<Seq<char>>::empty());
    while i < units.len()
        invariant
            0 <= i <= units.len(),
            out.deep_view() == upgrade_events(units@.take(i as int)),
        decreases units.len() - i,
    {
        assert(units@.take(i + 1).drop_last() =~= units@.take(i as int));
        assert(units@.take(i + 1).last() == units@[i as int]);
        if let Some(e) = general_upgrade_event(&units[i]) {
            let mut seen = false;
            let mut k: usize = 0;
            while k < out.len()
                invariant
                    0 <= k <= out.len(),
                    seen == exists|j: int| 0 <= j < k && #[trigger] out.deep_view()[j] == e@,
                decreases out.len() - k,
            {
                if out[k] == e {
                    assert(out.deep_view()[k as int] == e@);
                    seen = true;
                }
                k += 1;
            }
            if !seen {
                let ghost before = out.deep_view();
                let ghost ev = e@;
                out.push(e);
                assert(out.deep_view() =~= before.push(ev));
            }
        }
        i += 1;
    }
    assert(units@.take(units.len() as int) =~= units@);
    out
}

/// What each unit requires: for every way in which it can be had (a
/// building level that recruits it, being a general's bodyguard, forming a
/// horde), the requirement of that way; the unit can be had where any of
/// them holds.
pub fn build_requires(raw_buildings: &Vec<Building>, units: &Vec<Unit>) -> (r: Vec<(String, Requires)>)
    requires
        ids_unique(units@),
        recruits_known(raw_buildings@, units@),
    ensures
        unit_reqs_view(r@) == unit_requires(raw_buildings@, units@),
{
    let events = general_events(units);
    let unupgraded = require_no_events(&events);
    let ghost bs = raw_buildings@;
    let ghost us = units@;
    let mut g: Vec<(String, Vec<Requires>)> = Vec::new();
    let mut i: usize = 0;
    assert(bs.take(0) =~= Seq::<Building>::empty());
    assert(groups_view(g@) =~= Seq::<(Seq<char>, Seq<ReqView>)>::empty());
    while i < raw_buildings.len()
        invariant
            0 <= i <= raw_buildings.len(),
            bs == raw_buildings@,
            us == units@,
            ids_unique(us),
            recruits_known(bs, us),
            groups_view(g@) == group_reqs(cap_pairs(bs.take(i as int), us)),
        decreases raw_buildings.len() - i,
    {
        let b = &raw_buildings[i];
        let ghost done = cap_pairs(bs.take(i as int), us);
        let ghost lp = Seq::new(b.caps@.len(), |j: int| recruit_req(*b, j, us));
        assert(bs.take(i + 1).drop_last() =~= bs.take(i as int));
        assert(bs.take(i + 1).last() == *b);
        assert(cap_pairs(bs.take(i + 1), us) == done + lp);
        let mut j: usize = 0;
        assert(done + lp.take(0) =~= done);
        while j < b.caps.len()
            invariant
                0 <= j <= b.caps.len(),
                i < raw_buildings.len(),
                b == &raw_buildings[i as int],
                bs == raw_buildings@,
                us == units@,
                ids_unique(us),
                recruits_known(bs, us),
                lp == Seq::new(b.caps@.len(), |j: int| recruit_req(*b, j, us)),
                groups_view(g@) == group_reqs(done + lp.take(j as int)),
            decreases b.caps.len() - j,
        {
            let c = &b.caps[j];
            assert(is_known(us, bs[i as int].caps@[j as int].unit@));
            let k = unit_index(units, &c.unit);
            let owners = require_ownership(&units[k]);
            let mut parts: Vec<Requires> = Vec::new();
            parts.push(clone_req(&c.req));
            parts.push(clone_req(&b.req));
            parts.push(owners);
            proof {
                lemma_reqs_view3(parts@);
            }
            let req = Requires::And(parts);
            let ghost next = done + lp.take(j + 1);
            assert(next.drop_last() =~= done + lp.take(j as int));
            assert(next.last() == (c.unit@, req_view(req)));
            add_to_group(&mut g, c.unit.clone(), req);
            j += 1;
        }
        assert(lp.take(b.caps.len() as int) =~= lp);
        i += 1;
    }
    assert(bs.take(raw_buildings.len() as int) =~= bs);
    let ghost caps = cap_pairs(bs, us);
    let ghost evs = upgrade_events(us);
    let mut k: usize = 0;
    assert(us.take(0) =~= Seq::<Unit>::empty());
    assert(caps + general_pairs(us.take(0), evs) =~= caps);
    while k < units.len()
        invariant
            0 <= k <= units.len(),
            us == units@,
            caps == cap_pairs(bs, us),
            evs == upgrade_events(us),
            req_view(unupgraded) == no_events(evs),
            groups_view(g@) == group_reqs(caps + general_pairs(us.take(k as int), evs)),
        decreases units.len() - k,
    {
        let u = &units[k];
        let ghost prev = caps + general_pairs(us.take(k as int), evs);
        assert(us.take(k + 1).drop_last() =~= us.take(k as int));
        assert(us.take(k + 1).last() == *u);
        if is_general(u) {
            let owners = require_ownership(u);
            let second = match general_upgrade_event(u) {
                Some(e) => {
                    let ghost ev = e@;
                    let x = Requires::MajorEvent(e);
                    assert(req_view(x) == ReqView::MajorEvent(ev));
                    x
                },
                None => clone_req(&unupgraded),
            };
            assert(req_view(second) == upgrade_req(u.stats.attributes@, evs));
            let ghost ov = req_view(owners);
            let ghost sv = req_view(second);
            let mut parts: Vec<Requires> = Vec::new();
            parts.push(owners);
            parts.push(second);
            proof {
                lemma_reqs_view2(parts@);
                assert(req_view(parts@[0]) == ov);
                assert(req_view(parts@[1]) == sv);
            }
            let req = Requires::And(parts);
            let ghost next = caps + general_pairs(us.take(k + 1), evs);
            proof {
                lemma_general_step(us, k as int, evs);
            }
            assert(us[k as int] == *u);
            let ghost x = (u.id@, req_view(req));
            assert(general_pairs(us.take(k + 1), evs) == general_pairs(us.take(k as int), evs).push(x));
            assert(next =~= prev.push(x));
            assert(next.drop_last() =~= prev);
            add_to_group(&mut g, u.id.clone(), req);
        } else {
            assert(caps + general_pairs(us.take(k + 1), evs) =~= prev);
        }
        k += 1;
    }
    assert(us.take(units.len() as int) =~= us);
    let ghost gens = caps + general_pairs(us, evs);
    let mut h: usize = 0;
    assert(gens + horde_pairs(us.take(0)) =~= gens);
    while h < units.len()
        invariant
            0 <= h <= units.len(),
            us == units@,
            gens == cap_pairs(bs, us) + general_pairs(us, upgrade_events(us)),
            groups_view(g@) == group_reqs(gens + horde_pairs(us.take(h as int))),
        decreases units.len() - h,
    {
        let u = &units[h];
        let ghost prev = gens + horde_pairs(us.take(h as int));
        assert(us.take(h + 1).drop_last() =~= us.take(h as int));
        assert(us.take(h + 1).last() == *u);
        if can_horde(u) {
            let req = require_ownership(u);
            let ghost next = gens + horde_pairs(us.take(h + 1));
            assert(next =~= prev.push((u.id@, req_view(req))));
            assert(next.drop_last() =~= prev);
            add_to_group(&mut g, u.id.clone(), req);
        } else {
            assert(gens + horde_pairs(us.take(h + 1)) =~= prev);
        }
        h += 1;
    }
    assert(us.take(units.len() as int) =~= us);
    let ghost all = or_groups(groups_view(g@));
    let mut out: Vec<(String, Requires)> = Vec::new();
    assert(unit_reqs_view(out@) + or_groups(groups_view(g@)) =~= all);
    while g.len() > 0
        invariant
            unit_reqs_view(out@) + or_groups(groups_view(g@)) == all,
        decreases g.len(),
    {
        let ghost gv0 = groups_view(g@);
        let ghost o0 = unit_reqs_view(out@);
        let (name, items) = g.remove(0);
        assert(groups_view(g@) =~= gv0.drop_first());
        let ghost entry = (name@, ReqView::Or(reqs_view(items@)));
        assert(entry == or_groups(gv0)[0]);
        out.push((name, Requires::Or(items)));
        assert(unit_reqs_view(out@) =~= o0.push(entry));
        assert(o0.push(entry) + or_groups(groups_view(g@)) =~= o0 + or_groups(gv0));
    }
    assert(or_groups(groups_view(g@)) =~= Seq::<(Seq<char>, ReqView)>::empty());
    assert(unit_reqs_view(out@) =~= all);
    out
}

/// Each group as the requirement that any of its requirements holds.
pub open spec fn or_groups(g: Seq<(Seq<char>, Seq<ReqView>)>) -> Seq<(Seq<char>, ReqView)> {
    Seq::new(g.len(), |i: int| (g[i].0, ReqView::Or(g[i].1)))
}

/// The index of the last unit with the id, or -1.
pub open spec fn id_index(us: Seq<Unit>, id: Seq<char>) -> int
    decreases us.len(),
{
    if us.len() == 0 {
        -1
    } else if us.last().id@ == id {
        us.len() - 1
    } else {
        id_index(us.drop_last(), id)
    }
}

/// The units keyed by id, as a map filled in order keeps them: a unit whose
/// id is there already takes the place of the earlier one.
pub open spec fn keyed_units(us: Seq<Unit>) -> Seq<Unit>
    decreases us.len(),
{
    if us.len() == 0 {
        seq![]
    } else {
        let m = keyed_units(us.drop_last());
        let u = us.last();
        let j = id_index(m, u.id@);
        if j < 0 {
            m.push(u)
        } else {
            m.update(j, u)
        }
    }
}

pub(crate) proof fn lemma_id_index(us: Seq<Unit>, id: Seq<char>)
    ensures
        -1 <= id_index(us, id) < us.len(),
        id_index(us, id) >= 0 ==> us[id_index(us, id)].id@ == id,
        id_index(us, id) < 0 ==> forall|i: int| 0 <= i < us.len() ==> #[trigger] us[i].id@ != id,
    decreases us.len(),
{
    if us.len() > 0 && us.last().id@ != id {
        lemma_id_index(us.drop_last(), id);
        assert forall|i: int| 0 <= i < us.len() - 1 implies #[trigger] us[i] == us.drop_last()[i] by {}
    }
}

/// Where the last unit with the id is.
pub(crate) fn find_unit(m: &Vec<Unit>, id: &String) -> (r: Option<usize>)
    ensures
        match r {
            Some(j) => j == id_index(m@, id@),
            None => id_index(m@, id@) < 0,
        },
{
    let ghost mv = m@;
    let mut j = m.len();
    assert(mv.take(j as int) =~= mv);
    while j > 0
        invariant
            j <= m.len(),
            m@ == mv,
            id_index(mv, id@) == id_index(mv.take(j as int), id@),
        decreases j,
    {
        let ghost pre = mv.take(j as int);
        assert(pre.drop_last() =~= mv.take(j - 1));
        assert(pre.last() == mv[j - 1]);
        if m[j - 1].id == *id {
            return Some(j - 1);
        }
        j -= 1;
    }
    assert(mv.take(0) =~= Seq::<Unit>::empty());
    None
}

#[verifier::external_type_specification]
#[verifier::external_body]
#[verifier::reject_recursive_types(K)]
#[verifier::reject_recursive_types(V)]
#[verifier::reject_recursive_types(S)]
pub struct ExIndexMap<K, V, S>(IndexMap<K, V, S>);

/// What a map of units holds: its keys and values, in the map's order.
pub uninterp spec fn unit_entries(m: IndexMap<String, Unit>) -> Seq<(Seq<char>, Unit)>;

/// Where the entry with key `k` is, else -1.
pub open spec fn entry_index(es: Seq<(Seq<char>, Unit)>, k: Seq<char>) -> int
    decreases es.len(),
{
    if es.len() == 0 {
        -1
    } else if es.last().0 == k {
        es.len() - 1
    } else {
        entry_index(es.drop_last(), k)
    }
}

/// The entries after an insert: an entry with an equal key keeps its place
/// and takes the value; otherwise the pair comes last.
pub open spec fn entries_insert(es: Seq<(Seq<char>, Unit)>, k: Seq<char>, u: Unit) -> Seq<(Seq<char>, Unit)> {
    let j = entry_index(es, k);
    if j < 0 {
        es.push((k, u))
    } else {
        es.update(j, (k, u))
    }
}

/// The values of the entries, in order.
pub open spec fn entry_units(es: Seq<(Seq<char>, Unit)>) -> Seq<Unit> {
    es.map_values(|e: (Seq<char>, Unit)| e.1)
}

/// `IndexMap::new`: a map with no entries.
#[verifier::external_body]
fn new_unit_index() -> (m: IndexMap<String, Unit>)
    ensures
        unit_entries(m) == Seq::<(Seq<char>, Unit)>::empty(),
{
    IndexMap::new()
}

/// `IndexMap::insert`: where an equal key is in the map, its entry keeps its
/// place and takes the value; otherwise the pair is added last.
#[verifier::external_body]
fn insert_unit(m: &mut IndexMap<String, Unit>, id: String, u: Unit)
    ensures
        unit_entries(*final(m)) == entries_insert(unit_entries(*old(m)), id@, u),
{
    m.insert(id, u);
}

/// `IndexMap::into_values`: the values, in the map's order.
#[verifier::external_body]
fn unit_values(m: IndexMap<String, Unit>) -> (v: Vec<Unit>)
    ensures
        v@ == entry_units(unit_entries(m)),
{
    m.into_values().collect()
}

/// Entries keyed by their units' ids are found where the units are.
proof fn lemma_entry_index(es: Seq<(Seq<char>, Unit)>, k: Seq<char>)
    requires
        forall|j: int| 0 <= j < es.len() ==> (#[trigger] es[j]).0 == es[j].1.id@,
    ensures
        entry_index(es, k) == id_index(entry_units(es), k),
    decreases es.len(),
{
    if es.len() > 0 {
        assert(entry_units(es).last() == es.last().1);
        assert(entry_units(es).drop_last() =~= entry_units(es.drop_last()));
        if es.last().0 != k {
            lemma_entry_index(es.drop_last(), k);
        }
    }
}

/// The units keyed by id, in the order a map filled with them in turn keeps:
/// a unit whose id is there already takes the place of the earlier one.
pub fn unit_map(units: Vec<Unit>) -> (r: Vec<Unit>)
    ensures
        r@ == keyed_units(units@),
        ids_unique(r@),
{
    let ghost all = units@;
    let n = units.len();
    assert(all.len() == n);
    let mut m = new_unit_index();
    let mut rest = units;
    let mut i: usize = 0;
    assert(all.take(0) =~= Seq::<Unit>::empty());
    assert(rest@ =~= all.skip(0));
    assert(entry_units(unit_entries(m)) =~= Seq::<Unit>::empty());
    while rest.len() > 0
        invariant
            i <= all.len(),
            all.len() == n,
            rest@ == all.skip(i as int),
            entry_units(unit_entries(m)) == keyed_units(all.take(i as int)),
            forall|j: int|
                0 <= j < unit_entries(m).len() ==> (#[trigger] unit_entries(m)[j]).0
                    == unit_entries(m)[j].1.id@,
            ids_unique(entry_units(unit_entries(m))),
        decreases rest.len(),
    {
        let u = rest.remove(0);
        assert(all.take(i + 1).drop_last() =~= all.take(i as int));
        assert(all.take(i + 1).last() == u);
        assert(rest@ =~= all.skip(i + 1));
        let ghost es = unit_entries(m);
        let ghost mv = entry_units(es);
        proof {
            lemma_id_index(mv, u.id@);
            lemma_entry_index(es, u.id@);
        }
        let id = u.id.clone();
        insert_unit(&mut m, id, u);
        let ghost es2 = unit_entries(m);
        proof {
            let j: int = id_index(mv, u.id@);
            if j < 0 {
                assert(es2 == es.push((u.id@, u)));
                assert(entry_units(es2) =~= mv.push(u));
                assert forall|a: int, b: int| 0 <= a < b < entry_units(es2).len() implies #[trigger] entry_units(es2)[a].id@
                    != #[trigger] entry_units(es2)[b].id@ by {
                    if b < mv.len() {
                        assert(mv[a].id@ != mv[b].id@);
                    } else {
                        assert(mv[a].id@ != u.id@);
                    }
                }
            } else {
                assert(es2 == es.update(j, (u.id@, u)));
                assert(entry_units(es2) =~= mv.update(j, u));
                assert forall|a: int, b: int| 0 <= a < b < entry_units(es2).len() implies #[trigger] entry_units(es2)[a].id@
                    != #[trigger] entry_units(es2)[b].id@ by {
                    assert(mv[a].id@ != mv[b].id@);
                }
            }
        }
        assert forall|k: int| 0 <= k < es2.len() implies (#[trigger] es2[k]).0 == es2[k].1.id@ by {
            if k < es.len() {
                assert(es[k].0 == es[k].1.id@);
            }
        }
        i += 1;
    }
    assert(all.skip(i as int).len() == 0);
    assert(all.take(i as int) =~= all);
    unit_values(m)
}

/// Whether a unit with the id is among the units.
fn unit_known(units: &Vec<Unit>, id: &String) -> (b: bool)
    ensures
        b == is_known(units@, id@),
{
    let mut k: usize = 0;
    while k < units.len()
        invariant
            0 <= k <= units.len(),
            forall|k2: int| 0 <= k2 < k ==> #[trigger] units@[k2].id@ != id@,
        decreases units.len() - k,
    {
        if units[k].id == *id {
            return true;
        }
        k += 1;
    }
    false
}

/// Whether every unit that a building level recruits is among the units;
/// the requirements of units are built only where it is.
pub fn recruits_known_in(raw_buildings: &Vec<Building>, units: &Vec<Unit>) -> (b: bool)
    ensures
        b == recruits_known(raw_buildings@, units@),
{
    let mut i: usize = 0;
    while i < raw_buildings.len()
        invariant
            0 <= i <= raw_buildings.len(),
            forall|i2: int, j: int|
                0 <= i2 < i && 0 <= j < raw_buildings@[i2].caps@.len() ==> is_known(
                    units@,
                    #[trigger] raw_buildings@[i2].caps@[j].unit@,
                ),
        decreases raw_buildings.len() - i,
    {
        let b = &raw_buildings[i];
        let mut j: usize = 0;
        while j < b.caps.len()
            invariant
                0 <= j <= b.caps.len(),
                i < raw_buildings.len(),
                b == &raw_buildings[i as int],
                forall|i2: int, j2: int|
                    0 <= i2 < i && 0 <= j2 < raw_buildings@[i2].caps@.len() ==> is_known(
                        units@,
                        #[trigger] raw_buildings@[i2].caps@[j2].unit@,
                    ),
                forall|j2: int| 0 <= j2 < j ==> is_known(units@, #[trigger] b.caps@[j2].unit@),
            decreases b.caps.len() - j,
        {
            if !unit_known(units, &b.caps[j].unit) {
                assert(!is_known(units@, raw_buildings@[i as int].caps@[j as int].unit@));
                return false;
            }
            j += 1;
        }
        assert forall|i2: int, j2: int|
            0 <= i2 < i + 1 && 0 <= j2 < raw_buildings@[i2].caps@.len() implies is_known(
            units@,
            #[trigger] raw_buildings@[i2].caps@[j2].unit@,
        ) by {
            if i2 == i {
                assert(b.caps@[j2] == raw_buildings@[i2].caps@[j2]);
            }
        }
        i += 1;
    }
    true
}

} // verus!
