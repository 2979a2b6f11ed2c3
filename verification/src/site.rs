//! What the site shows of a campaign: factions with their rosters, regions,
//! mercenary pools and areas of recruitment, made from the parsed data.
use vstd::prelude::*;

use crate::catalog::{
    build_weapon, mount_type, mount_type_of, traits_ok, unit_mount, unit_traits, weapon_info_ok,
    MountType, UnitTraits, WeaponInfo,
};
use crate::chars::{chars_of, lowercase, string_of, to_lowercase, trim, trim_chars};
use indexmap::IndexMap;
use crate::numbers::{decimal, decimal_text};
use crate::parse::eval::{
    evaluate, evaluation, find_alias, lookup_alias, resolves, well_founded, Evaluator,
};
use crate::parse::descr_mercenaries::Pool;
use crate::parse::descr_model_battle::Model;
use crate::parse::descr_mount::Mount;
use crate::parse::descr_regions::Region;
use crate::parse::descr_sm_factions::Faction;
use crate::parse::export_descr_buildings::{Building, Requires};
use crate::parse::export_descr_unit::{Defense, GroundBonus, Unit};
use crate::order::{insert_name, insert_names, lemma_name_order, lemma_sorted_unique, name_lt, names_lt};
use crate::parse::eval::{faction_verdict, region_verdict};
use crate::parse::model::available_in_region;
use vstd::relations::sorted_by;
use crate::parse::export_descr_unit::Attr;
use crate::parse::eval::resolves_within;
use crate::parse::model::{
    available_to_faction, build_requires, build_tech_levels, copy_names, find_unit, has_attr,
    id_index, ids_unique, keyed_units, lemma_id_index, levels_view, lowest_levels,
    recruits_known, recruits_known_in, unit_levels, unit_map, unit_requires, unit_reqs_view,
};
use crate::parse::export_descr_buildings::buildings_view;

verus! {

/// What the site's building reads of its configuration: whether units are
/// pictured by their info images, the factions left out, the names of the
/// pools and of the areas of recruitment, the eras with what is known in
/// each, and the aliases of factions.
#[derive(Debug)]
pub struct ModelConfig {
    pub unit_info_images: bool,
    pub exclude: Vec<String>,
    pub pools: Vec<String>,
    pub aors: Vec<String>,
    pub eras: Vec<(String, Evaluator)>,
    pub aliases: Vec<(String, String)>,
}

/// An area of recruitment: regions where some units of a faction can be
/// had and nowhere else.
#[derive(Debug)]
pub struct Aor {
    pub name: String,
    pub map: String,
    pub faction: String,
    pub units: Vec<String>,
    pub regions: Vec<String>,
}

/// A unit as the site shows it.
#[derive(Debug)]
pub struct SiteUnit {
    pub id: String,
    pub key: String,
    pub name: String,
    pub image: String,
    pub soldiers: u32,
    pub officers: u32,
    pub mount: MountType,
    pub formations: Vec<String>,
    pub hp: u32,
    pub hp_mount: u32,
    pub primary_weapon: Option<WeaponInfo>,
    pub secondary_weapon: Option<WeaponInfo>,
    pub defense: Defense,
    pub defense_mount: Defense,
    pub heat: i32,
    pub ground_bonus: GroundBonus,
    pub morale: u32,
    pub discipline: String,
    pub turns: u32,
    pub cost: u32,
    pub upkeep: u32,
    pub eras: Vec<String>,
    pub traits: UnitTraits,
    pub is_regional: bool,
    pub tech_level: u32,
}

/// The text that a key names in the strings: that of its last entry.
pub open spec fn text_lookup(m: Seq<(String, String)>, k: Seq<char>) -> Option<Seq<char>>
    decreases m.len(),
{
    if m.len() == 0 {
        None
    } else if m.last().0@ == k {
        Some(m.last().1@)
    } else {
        text_lookup(m.drop_last(), k)
    }
}

/// The name that the site shows for a key: the text that the lowercase key
/// names, else the key, trimmed.
pub open spec fn shown_name(text: Seq<(String, String)>, key: Seq<char>) -> Seq<char> {
    trim(
        match text_lookup(text, lowercase(key)) {
            Some(t) => t,
            None => key,
        },
    )
}

fn find_text<'a>(m: &'a Vec<(String, String)>, k: &String) -> (r: Option<&'a String>)
    ensures
        match r {
            Some(x) => text_lookup(m@, k@) == Some(x@),
            None => text_lookup(m@, k@) is None,
        },
{
    let mut i = m.len();
    assert(m@.take(i as int) =~= m@);
    while i > 0
        invariant
            0 <= i <= m.len(),
            text_lookup(m@, k@) == text_lookup(m@.take(i as int), k@),
        decreases i,
    {
        assert(m@.take(i as int).drop_last() =~= m@.take(i - 1));
        if m[i - 1].0 == *k {
            return Some(&m[i - 1].1);
        }
        i -= 1;
    }
    assert(m@.take(0) =~= Seq::<(String, String)>::empty());
    None
}

/// A `String` holding the text trimmed.
fn trimmed(s: &str) -> (r: String)
    ensures
        r@ == trim(s@),
{
    let v = chars_of(s);
    let t = trim_chars(&v);
    string_of(&t)
}

/// The name that the site shows for a key.
pub fn display_name(text: &Vec<(String, String)>, key: &str) -> (r: String)
    ensures
        r@ == shown_name(text@, key@),
{
    let lk = to_lowercase(key);
    match find_text(text, &lk) {
        Some(t) => trimmed(t.as_str()),
        None => trimmed(key),
    }
}

/// `v` with `s` appended.
pub(crate) fn append_chars(v: &mut Vec<char>, s: &Vec<char>)
    ensures
        final(v)@ == old(v)@ + s@,
{
    let mut i: usize = 0;
    while i < s.len()
        invariant
            0 <= i <= s.len(),
            v@ == old(v)@ + s@.take(i as int),
        decreases s.len() - i,
    {
        v.push(s[i]);
        assert(s@.take(i + 1) =~= s@.take(i as int).push(s@[i as int]));
        i += 1;
    }
    assert(s@.take(s.len() as int) =~= s@);
}

/// `v` with the text `s` appended.
pub(crate) fn append_str(v: &mut Vec<char>, s: &str)
    ensures
        final(v)@ == old(v)@ + s@,
{
    let c = chars_of(s);
    append_chars(v, &c);
}

/// Where the picture of a unit of a faction is: its info image, under
/// `merc` for mercenaries, or its card; the faction and the key in lowercase.
pub open spec fn unit_image_of(info_images: bool, f_id: Seq<char>, key: Seq<char>) -> Seq<char> {
    if info_images {
        "data/ui/unit_info/"@ + (if f_id == "mercs"@ {
            "merc"@
        } else {
            lowercase(f_id)
        }) + "/"@ + lowercase(key) + "_info.tga"@
    } else {
        "data/ui/units/"@ + lowercase(f_id) + "/#"@ + lowercase(key) + ".tga"@
    }
}

/// Where the picture of a unit of a faction is.
pub fn unit_image(info_images: bool, f_id: &str, key: &str) -> (r: String)
    ensures
        r@ == unit_image_of(info_images, f_id@, key@),
{
    let lf = to_lowercase(f_id);
    let lk = to_lowercase(key);
    let mut v: Vec<char> = Vec::new();
    if info_images {
        append_str(&mut v, "data/ui/unit_info/");
        let fc = chars_of(f_id);
        if crate::chars::eq_str(&fc, "mercs") {
            append_str(&mut v, "merc");
        } else {
            append_str(&mut v, lf.as_str());
        }
        append_str(&mut v, "/");
        append_str(&mut v, lk.as_str());
        append_str(&mut v, "_info.tga");
    } else {
        append_str(&mut v, "data/ui/units/");
        append_str(&mut v, lf.as_str());
        append_str(&mut v, "/#");
        append_str(&mut v, lk.as_str());
        append_str(&mut v, ".tga");
    }
    string_of(&v)
}

/// The requirement for recruiting a unit: its entry, else `False`.
pub open spec fn unit_req(reqs: Seq<(String, Requires)>, id: Seq<char>) -> Requires {
    match lookup_alias(reqs, id) {
        Some(r) => r,
        None => Requires::False,
    }
}

/// Whether every requirement of the list resolves within chains of aliases
/// as long as the aliases are many.
pub open spec fn reqs_resolve(reqs: Seq<(String, Requires)>, al: Seq<(String, Requires)>) -> bool {
    forall|i: int| 0 <= i < reqs.len() ==> resolves(#[trigger] reqs[i].1, al, al.len())
}

proof fn lemma_lookup_in(m: Seq<(String, Requires)>, k: Seq<char>)
    requires
        lookup_alias(m, k) is Some,
    ensures
        exists|i: int| 0 <= i < m.len() && #[trigger] m[i].1 == lookup_alias(m, k).unwrap(),
    decreases m.len(),
{
    if m.last().0@ == k {
        assert(m[m.len() - 1].1 == lookup_alias(m, k).unwrap());
    } else {
        lemma_lookup_in(m.drop_last(), k);
        let i = choose|i: int|
            0 <= i < m.drop_last().len() && #[trigger] m.drop_last()[i].1 == lookup_alias(
                m.drop_last(),
                k,
            ).unwrap();
        assert(m[i] == m.drop_last()[i]);
    }
}

/// The requirement for recruiting a unit.
fn unit_req_of<'a>(reqs: &'a Vec<(String, Requires)>, id: &String, none: &'a Requires) -> (r: &'a Requires)
    requires
        *none == Requires::False,
    ensures
        *r == unit_req(reqs@, id@),
{
    match find_alias(reqs, id) {
        Some(r) => r,
        None => none,
    }
}

/// The eras (by id, in order) in which a requirement holds.
pub open spec fn era_ids(eras: Seq<(String, Evaluator)>, r: Requires, al: Seq<(String, Requires)>) -> Seq<
    Seq<char>,
>
    decreases eras.len(),
{
    if eras.len() == 0 {
        seq![]
    } else {
        let p = era_ids(eras.drop_last(), r, al);
        if evaluation(r, al, eras.last().1) {
            p.push(eras.last().0@)
        } else {
            p
        }
    }
}

/// The eras in which a requirement holds.
pub fn unit_eras(req: &Requires, aliases: &Vec<(String, Requires)>, eras: &Vec<(String, Evaluator)>) -> (r:
    Vec<String>)
    requires
        eras@.len() > 0 ==> well_founded(*req, aliases@),
    ensures
        r.deep_view() == era_ids(eras@, *req, aliases@),
{
    let mut r: Vec<String> = Vec::new();
    let mut i: usize = 0;
    assert(eras@.take(0) =~= Seq::<(String, Evaluator)>::empty());
    while i < eras.len()
        invariant
            0 <= i <= eras.len(),
            eras@.len() > 0 ==> well_founded(*req, aliases@),
            r.deep_view() == era_ids(eras@.take(i as int), *req, aliases@),
        decreases eras.len() - i,
    {
        assert(eras@.take(i + 1).drop_last() =~= eras@.take(i as int));
        assert(eras@.take(i + 1).last() == eras@[i as int]);
        if evaluate(req, aliases, &eras[i].1) {
            let ghost before = r.deep_view();
            r.push(eras[i].0.clone());
            assert(r.deep_view() =~= before.push(eras@[i as int].0@));
        }
        i += 1;
    }
    assert(eras@.take(eras.len() as int) =~= eras@);
    r
}

/// Whether some area of recruitment of the faction `f_id` holds the unit.
pub open spec fn regional_in(aors: Seq<Aor>, f_id: Seq<char>, id: Seq<char>) -> bool {
    exists|i: int|
        0 <= i < aors.len() && (#[trigger] aors[i]).faction@ == f_id && exists|j: int|
            0 <= j < aors[i].units@.len() && (#[trigger] aors[i].units@[j])@ == id
}

/// Whether the list holds the name.
pub(crate) fn holds_name(v: &Vec<String>, id: &String) -> (b: bool)
    ensures
        b == exists|j: int| 0 <= j < v@.len() && (#[trigger] v@[j])@ == id@,
{
    let mut j: usize = 0;
    while j < v.len()
        invariant
            0 <= j <= v.len(),
            forall|m: int| 0 <= m < j ==> (#[trigger] v@[m])@ != id@,
        decreases v.len() - j,
    {
        if v[j] == *id {
            assert(v@[j as int]@ == id@);
            return true;
        }
        j += 1;
    }
    false
}

/// Whether some area of recruitment of the faction holds the unit.
pub fn is_regional(aors: &Vec<Aor>, f_id: &str, id: &String) -> (b: bool)
    ensures
        b == regional_in(aors@, f_id@, id@),
{
    let fc = chars_of(f_id);
    let mut i: usize = 0;
    while i < aors.len()
        invariant
            0 <= i <= aors.len(),
            fc@ == f_id@,
            forall|k: int| 0 <= k < i ==> !(#[trigger] aors@[k].faction@ == f_id@ && exists|j: int|
                0 <= j < aors@[k].units@.len() && (#[trigger] aors@[k].units@[j])@ == id@),
        decreases aors.len() - i,
    {
        let ac = chars_of(aors[i].faction.as_str());
        if crate::chars::eq_chars(&ac, &fc) && holds_name(&aors[i].units, id) {
            return true;
        }
        i += 1;
    }
    false
}

/// The level that a unit's entry gives, else 99.
pub open spec fn level_of(levels: Seq<(String, u32)>, id: Seq<char>) -> u32
    decreases levels.len(),
{
    if levels.len() == 0 {
        99
    } else if levels.last().0@ == id {
        levels.last().1
    } else {
        level_of(levels.drop_last(), id)
    }
}

/// The level of settlement from which a unit can be recruited.
pub fn unit_tech_level(levels: &Vec<(String, u32)>, id: &String) -> (n: u32)
    ensures
        n == level_of(levels@, id@),
{
    let mut i = levels.len();
    assert(levels@.take(i as int) =~= levels@);
    while i > 0
        invariant
            0 <= i <= levels.len(),
            level_of(levels@, id@) == level_of(levels@.take(i as int), id@),
        decreases i,
    {
        assert(levels@.take(i as int).drop_last() =~= levels@.take(i - 1));
        if levels[i - 1].0 == *id {
            return levels[i - 1].1;
        }
        i -= 1;
    }
    assert(levels@.take(0) =~= Seq::<(String, u32)>::empty());
    99
}

/// The parsed data with what is derived from it: the units keyed by id,
/// the requirement for recruiting each unit, and the lowest level of
/// settlement that recruits it.
#[derive(Debug)]
pub struct IntermediateModel {
    pub unit_map: Vec<Unit>,
    pub factions: Vec<Faction>,
    pub regions: Vec<Region>,
    pub pools: Vec<Pool>,
    pub buildings: Vec<Building>,
    pub require_aliases: Vec<(String, Requires)>,
    pub text: Vec<(String, String)>,
    pub strat: Vec<(String, usize)>,
    pub mounts: Vec<(String, Mount)>,
    pub models: Vec<(String, Model)>,
    pub requires: Vec<(String, Requires)>,
    pub tech_levels: Vec<(String, u32)>,
}

/// Whether a requirement resolves within chains of aliases as long as the
/// aliases are many.
pub open spec fn founded(r: Requires, al: Seq<(String, Requires)>) -> bool {
    resolves(r, al, al.len())
}

/// Whether the requirement of every unit resolves.
pub open spec fn units_founded(raw: IntermediateModel) -> bool {
    forall|i: int|
        0 <= i < raw.unit_map@.len() ==> founded(
            unit_req(raw.requires@, (#[trigger] raw.unit_map@[i]).id@),
            raw.require_aliases@,
        )
}

/// What building the factions asks of the intermediate model: the
/// requirement of every unit resolves, and no unit has more attributes
/// than a `u32` stamina can add up.
pub open spec fn model_ok(raw: IntermediateModel) -> bool {
    &&& units_founded(raw)
    &&& forall|i: int|
        0 <= i < raw.unit_map@.len() ==> (#[trigger] raw.unit_map@[i]).stats.attributes@.len()
            <= 0x1000_0000
}

/// A count of hit points as the site shows it: none below zero.
pub open spec fn nonneg(x: i32) -> u32 {
    if x < 0 {
        0
    } else {
        x as u32
    }
}

/// What the site shows of the unit `u` of the faction `f_id`.
pub open spec fn unit_shown(
    out: SiteUnit,
    u: Unit,
    cfg: ModelConfig,
    f_id: Seq<char>,
    raw: IntermediateModel,
    aors: Seq<Aor>,
) -> bool {
    &&& out.id@ == u.id@
    &&& out.key@ == u.key@
    &&& out.name@ == shown_name(raw.text@, u.key@)
    &&& out.image@ == unit_image_of(cfg.unit_info_images, f_id, u.key@)
    &&& out.soldiers == u.stats.soldiers
    &&& out.officers == u.stats.officers
    &&& out.mount == mount_type_of(unit_mount(u, raw.mounts@))
    &&& out.formations.deep_view() == u.stats.formations.deep_view()
    &&& out.hp == nonneg(u.stats.hp)
    &&& out.hp_mount == nonneg(u.stats.hp_mount)
    &&& weapon_info_ok(u.stats.primary_weapon, out.primary_weapon)
    &&& weapon_info_ok(u.stats.secondary_weapon, out.secondary_weapon)
    &&& out.defense == u.stats.defense
    &&& out.defense_mount == u.stats.defense_mount
    &&& out.heat == u.stats.heat
    &&& out.ground_bonus == u.stats.ground_bonus
    &&& out.morale == u.stats.morale
    &&& out.discipline@ == u.stats.discipline@
    &&& out.turns == u.stats.turns
    &&& out.cost == u.stats.cost
    &&& out.upkeep == u.stats.upkeep
    &&& out.eras.deep_view() == era_ids(
        cfg.eras@,
        unit_req(raw.requires@, u.id@),
        raw.require_aliases@,
    )
    &&& traits_ok(u, raw.mounts@, out.traits)
    &&& out.is_regional == regional_in(aors, f_id, u.id@)
    &&& out.tech_level == level_of(raw.tech_levels@, u.id@)
}

/// A unit as the site shows it for the faction `f_id`.
pub fn build_unit(
    u: &Unit,
    cfg: &ModelConfig,
    f_id: &str,
    raw: &IntermediateModel,
    aors: &Vec<Aor>,
) -> (out: SiteUnit)
    requires
        cfg.eras@.len() > 0 ==> well_founded(unit_req(raw.requires@, u.id@), raw.require_aliases@),
        u.stats.attributes@.len() <= 0x1000_0000,
    ensures
        unit_shown(out, *u, *cfg, f_id@, *raw, aors@),
{
    let traits = unit_traits(u, &raw.mounts);
    let none = Requires::False;
    let req = unit_req_of(&raw.requires, &u.id, &none);
    let eras = unit_eras(req, &raw.require_aliases, &cfg.eras);
    let is_regional = is_regional(aors, f_id, &u.id);
    let st = &u.stats;
    SiteUnit {
        id: u.id.clone(),
        key: u.key.clone(),
        name: display_name(&raw.text, u.key.as_str()),
        image: unit_image(cfg.unit_info_images, f_id, u.key.as_str()),
        soldiers: st.soldiers,
        officers: st.officers,
        mount: mount_type(u, &raw.mounts),
        formations: copy_names(&st.formations),
        hp: if st.hp < 0 {
            0
        } else {
            st.hp as u32
        },
        hp_mount: if st.hp_mount < 0 {
            0
        } else {
            st.hp_mount as u32
        },
        primary_weapon: build_weapon(&st.primary_weapon),
        secondary_weapon: build_weapon(&st.secondary_weapon),
        defense: st.defense,
        defense_mount: st.defense_mount,
        heat: st.heat,
        ground_bonus: st.ground_bonus,
        morale: st.morale,
        discipline: st.discipline.clone(),
        turns: st.turns,
        cost: st.cost,
        upkeep: st.upkeep,
        eras,
        traits,
        is_regional,
        tech_level: unit_tech_level(&raw.tech_levels, &u.id),
    }
}

/// A faction as the site shows it.
#[derive(Debug)]
pub struct SiteFaction {
    pub id: String,
    pub name: String,
    pub image: String,
    pub alias: Option<String>,
    pub is_horde: bool,
    pub has_aors: bool,
    pub eras: Vec<String>,
    pub roster: Vec<SiteUnit>,
}

/// Whether a faction may recruit the unit.
pub open spec fn recruits(raw: IntermediateModel, f: Faction, u: Unit) -> bool {
    faction_verdict(unit_req(raw.requires@, u.id@), raw.require_aliases@, f)
}

/// The units that a faction's roster shows, in order: those it may
/// recruit, but for mercenaries.
pub open spec fn roster_units(us: Seq<Unit>, raw: IntermediateModel, f: Faction) -> Seq<Unit>
    decreases us.len(),
{
    if us.len() == 0 {
        seq![]
    } else {
        let p = roster_units(us.drop_last(), raw, f);
        let u = us.last();
        if recruits(raw, f, u) && !has_attr(u.stats.attributes@, Attr::MercenaryUnit) {
            p.push(u)
        } else {
            p
        }
    }
}

/// The first alias (in order) given for a faction.
pub open spec fn alias_of(al: Seq<(String, String)>, id: Seq<char>) -> Option<Seq<char>>
    decreases al.len(),
{
    if al.len() == 0 {
        None
    } else if al[0].1@ == id {
        Some(al[0].0@)
    } else {
        alias_of(al.drop_first(), id)
    }
}

/// Whether some unit of the roster is not there in the era `e`.
pub open spec fn lacks_era(roster: Seq<SiteUnit>, e: Seq<char>) -> bool {
    exists|i: int| 0 <= i < roster.len() && !(#[trigger] roster[i].eras.deep_view()).contains(e)
}

/// The eras (by id, in order) that tell a roster apart: those in which some
/// of its units are missing.
pub open spec fn telling_eras(eras: Seq<(String, Evaluator)>, roster: Seq<SiteUnit>) -> Seq<Seq<char>>
    decreases eras.len(),
{
    if eras.len() == 0 {
        seq![]
    } else {
        let p = telling_eras(eras.drop_last(), roster);
        if lacks_era(roster, eras.last().0@) {
            p.push(eras.last().0@)
        } else {
            p
        }
    }
}

/// What the site shows of the faction `f`.
pub open spec fn faction_shown(
    out: SiteFaction,
    f: Faction,
    cfg: ModelConfig,
    raw: IntermediateModel,
    aors: Seq<Aor>,
) -> bool {
    let us = raw.unit_map@;
    let kept = roster_units(us, raw, f);
    &&& out.id@ == f.id@
    &&& out.name@ == shown_name(raw.text@, f.name@)
    &&& out.image@ == lowercase(f.logo@)
    &&& opt_string_seq(out.alias) == alias_of(cfg.aliases@, f.id@)
    &&& out.is_horde == exists|i: int|
        0 <= i < us.len() && recruits(raw, f, #[trigger] us[i]) && has_attr(
            us[i].stats.attributes@,
            Attr::CanHorde,
        )
    &&& out.has_aors == exists|i: int|
        0 <= i < us.len() && recruits(raw, f, #[trigger] us[i]) && regional_in(aors, f.id@, us[i].id@)
    &&& out.roster@.len() == kept.len()
    &&& forall|k: int|
        0 <= k < kept.len() ==> unit_shown(#[trigger] out.roster@[k], kept[k], cfg, f.id@, raw, aors)
    &&& out.eras.deep_view() == telling_eras(cfg.eras@, out.roster@)
}

pub open spec fn opt_string_seq(o: Option<String>) -> Option<Seq<char>> {
    match o {
        Some(s) => Some(s@),
        None => None,
    }
}

/// The first alias given for a faction.
fn find_faction_alias(al: &Vec<(String, String)>, id: &String) -> (r: Option<String>)
    ensures
        opt_string_seq(r) == alias_of(al@, id@),
{
    let mut i: usize = 0;
    assert(al@.skip(0) =~= al@);
    while i < al.len()
        invariant
            0 <= i <= al.len(),
            alias_of(al@, id@) == alias_of(al@.skip(i as int), id@),
        decreases al.len() - i,
    {
        assert(al@.skip(i as int).drop_first() =~= al@.skip(i + 1));
        assert(al@.skip(i as int)[0] == al@[i as int]);
        if al[i].1 == *id {
            return Some(al[i].0.clone());
        }
        i += 1;
    }
    None
}

/// Whether some unit of the roster is not there in the era `e`.
fn lacks_era_in(roster: &Vec<SiteUnit>, e: &String) -> (b: bool)
    ensures
        b == lacks_era(roster@, e@),
{
    let mut i: usize = 0;
    while i < roster.len()
        invariant
            0 <= i <= roster.len(),
            forall|k: int| 0 <= k < i ==> (#[trigger] roster@[k].eras.deep_view()).contains(e@),
        decreases roster.len() - i,
    {
        let found = holds_name(&roster[i].eras, e);
        if !found {
            assert(!roster@[i as int].eras.deep_view().contains(e@)) by {
                if roster@[i as int].eras.deep_view().contains(e@) {
                    let j = choose|j: int|
                        0 <= j < roster@[i as int].eras.deep_view().len()
                            && roster@[i as int].eras.deep_view()[j] == e@;
                    assert(roster@[i as int].eras@[j]@ == e@);
                }
            }
            return true;
        }
        assert(roster@[i as int].eras.deep_view().contains(e@)) by {
            let j = choose|j: int|
                0 <= j < roster@[i as int].eras@.len() && (#[trigger] roster@[i as int].eras@[j])@
                    == e@;
            assert(roster@[i as int].eras.deep_view()[j] == e@);
        }
        i += 1;
    }
    false
}

/// The eras that tell a roster apart.
fn faction_eras(eras: &Vec<(String, Evaluator)>, roster: &Vec<SiteUnit>) -> (r: Vec<String>)
    ensures
        r.deep_view() == telling_eras(eras@, roster@),
{
    let mut r: Vec<String> = Vec::new();
    let mut i: usize = 0;
    assert(eras@.take(0) =~= Seq::<(String, Evaluator)>::empty());
    while i < eras.len()
        invariant
            0 <= i <= eras.len(),
            r.deep_view() == telling_eras(eras@.take(i as int), roster@),
        decreases eras.len() - i,
    {
        assert(eras@.take(i + 1).drop_last() =~= eras@.take(i as int));
        assert(eras@.take(i + 1).last() == eras@[i as int]);
        if lacks_era_in(roster, &eras[i].0) {
            let ghost before = r.deep_view();
            r.push(eras[i].0.clone());
            assert(r.deep_view() =~= before.push(eras@[i as int].0@));
        }
        i += 1;
    }
    assert(eras@.take(eras.len() as int) =~= eras@);
    r
}

/// A faction as the site shows it, with its roster.
pub fn build_faction(f: &Faction, cfg: &ModelConfig, raw: &IntermediateModel, aors: &Vec<Aor>) -> (out:
    SiteFaction)
    requires
        model_ok(*raw),
    ensures
        faction_shown(out, *f, *cfg, *raw, aors@),
{
    let us = &raw.unit_map;
    let none = Requires::False;
    let mut roster: Vec<SiteUnit> = Vec::new();
    let mut is_horde = false;
    let mut has_aors = false;
    let mut i: usize = 0;
    assert(us@.take(0) =~= Seq::<Unit>::empty());
    while i < us.len()
        invariant
            0 <= i <= us.len(),
            us == &raw.unit_map,
            none == Requires::False,
            model_ok(*raw),
            roster@.len() == roster_units(us@.take(i as int), *raw, *f).len(),
            forall|k: int|
                0 <= k < roster@.len() ==> unit_shown(
                    #[trigger] roster@[k],
                    roster_units(us@.take(i as int), *raw, *f)[k],
                    *cfg,
                    f.id@,
                    *raw,
                    aors@,
                ),
            is_horde == exists|j: int|
                0 <= j < i && recruits(*raw, *f, #[trigger] us@[j]) && has_attr(
                    us@[j].stats.attributes@,
                    Attr::CanHorde,
                ),
            has_aors == exists|j: int|
                0 <= j < i && recruits(*raw, *f, #[trigger] us@[j]) && regional_in(
                    aors@,
                    f.id@,
                    us@[j].id@,
                ),
        decreases us.len() - i,
    {
        let ghost pre = us@.take(i as int);
        assert(us@.take(i + 1).drop_last() =~= pre);
        assert(us@.take(i + 1).last() == us@[i as int]);
        let u = &us[i];
        let req = unit_req_of(&raw.requires, &u.id, &none);
        assert(founded(unit_req(raw.requires@, raw.unit_map@[i as int].id@), raw.require_aliases@));
        assert(resolves(*req, raw.require_aliases@, raw.require_aliases@.len()));
        if available_to_faction(req, f, &raw.require_aliases) {
            assert(raw.unit_map@[i as int].stats.attributes@.len() <= 0x1000_0000);
            let su = build_unit(u, cfg, f.id.as_str(), raw, aors);
            if su.traits.horde {
                is_horde = true;
            }
            if su.is_regional {
                has_aors = true;
            }
            if !su.traits.mercenary {
                roster.push(su);
            }
        }
        i += 1;
    }
    assert(us@.take(us.len() as int) =~= us@);
    let eras = faction_eras(&cfg.eras, &roster);
    let logo = to_lowercase(f.logo.as_str());
    SiteFaction {
        id: f.id.clone(),
        name: display_name(&raw.text, f.name.as_str()),
        image: logo,
        alias: find_faction_alias(&cfg.aliases, &f.id),
        is_horde,
        has_aors,
        eras,
        roster,
    }
}

/// The ids of the regions in which a requirement holds, whoever asks.
#[verifier::opaque]
pub open spec fn held_in(raw: IntermediateModel, req: Requires) -> Set<Seq<char>> {
    Set::new(
        |id: Seq<char>|
            exists|j: int|
                0 <= j < raw.regions@.len() && (#[trigger] raw.regions@[j]).id@ == id && region_verdict(
                    req,
                    raw.require_aliases@,
                    raw.regions@[j],
                    None,
                ),
    )
}

/// Whether the region `id` is on the map.
pub open spec fn on_map(raw: IntermediateModel, id: Seq<char>) -> bool {
    exists|j: int| 0 <= j < raw.regions@.len() && (#[trigger] raw.regions@[j]).id@ == id
}

/// Whether the `k`th requirement bounds an area: it holds in some region
/// but not in every region.
pub open spec fn bounds_area(raw: IntermediateModel, k: int) -> bool {
    let h = held_in(raw, raw.requires@[k].1);
    &&& exists|id: Seq<char>| #[trigger] h.contains(id)
    &&& exists|id: Seq<char>| on_map(raw, id) && !#[trigger] h.contains(id)
}

/// Whether the name is that of a unit whose requirement bounds an area.
pub open spec fn is_area_unit(raw: IntermediateModel, n: Seq<char>) -> bool {
    exists|k: int|
        0 <= k < raw.requires@.len() && bounds_area(raw, k) && (#[trigger] raw.requires@[k]).0@ == n
}

/// Whether some requirement that bounds an area holds in the region `id`.
pub open spec fn covered(raw: IntermediateModel, id: Seq<char>) -> bool {
    exists|k: int|
        0 <= k < raw.requires@.len() && bounds_area(raw, k) && held_in(
            raw,
            (#[trigger] raw.requires@[k]).1,
        ).contains(id)
}

/// The area of recruitment of the region `id`: the regions in which every
/// requirement holds that bounds an area and holds in `id`.
pub open spec fn area_of(raw: IntermediateModel, id: Seq<char>) -> Set<Seq<char>> {
    Set::new(
        |x: Seq<char>|
            forall|k: int|
                0 <= k < raw.requires@.len() && bounds_area(raw, k) && held_in(
                    raw,
                    (#[trigger] raw.requires@[k]).1,
                ).contains(id) ==> held_in(raw, raw.requires@[k].1).contains(x),
    )
}

/// Whether `names` lists in order, once each, the units whose requirement
/// bounds an area.
pub open spec fn area_units_listed(names: Seq<Seq<char>>, raw: IntermediateModel) -> bool {
    &&& sorted_by(names, name_lt())
    &&& forall|n: Seq<char>| #[trigger] names.contains(n) <==> is_area_unit(raw, n)
}

/// Whether `areas` lists in order, once each, the areas of recruitment of
/// the regions that some such requirement holds in, each as its regions in
/// order.
pub open spec fn areas_listed(areas: Seq<Seq<Seq<char>>>, raw: IntermediateModel) -> bool {
    &&& sorted_by(areas, names_lt())
    &&& forall|i: int| 0 <= i < areas.len() ==> sorted_by(#[trigger] areas[i], name_lt())
    &&& forall|a: Seq<Seq<char>>|
        #[trigger] areas.contains(a) <==> sorted_by(a, name_lt()) && exists|j: int|
            0 <= j < raw.regions@.len() && covered(raw, (#[trigger] raw.regions@[j]).id@) && a.to_set()
                == area_of(raw, raw.regions@[j].id@)
}

/// The ids of the regions in which a requirement holds, in order.
fn regions_holding(req: &Requires, raw: &IntermediateModel) -> (r: Vec<String>)
    requires
        well_founded(*req, raw.require_aliases@),
    ensures
        sorted_by(r.deep_view(), name_lt()),
        forall|x: Seq<char>| #[trigger] r.deep_view().contains(x) <==> held_in(*raw, *req).contains(x),
{
    reveal(held_in);
    let mut r: Vec<String> = Vec::new();
    let mut j: usize = 0;
    while j < raw.regions.len()
        invariant
            0 <= j <= raw.regions.len(),
            well_founded(*req, raw.require_aliases@),
            sorted_by(r.deep_view(), name_lt()),
            forall|x: Seq<char>|
                #[trigger] r.deep_view().contains(x) <==> exists|jj: int|
                    0 <= jj < j && (#[trigger] raw.regions@[jj]).id@ == x && region_verdict(
                        *req,
                        raw.require_aliases@,
                        raw.regions@[jj],
                        None,
                    ),
        decreases raw.regions.len() - j,
    {
        if available_in_region(req, &raw.regions[j], None, &raw.require_aliases) {
            insert_name(&mut r, raw.regions[j].id.clone());
        }
        proof {
            assert forall|x: Seq<char>|
                #[trigger] r.deep_view().contains(x) <==> exists|jj: int|
                    0 <= jj < j + 1 && (#[trigger] raw.regions@[jj]).id@ == x && region_verdict(
                        *req,
                        raw.require_aliases@,
                        raw.regions@[jj],
                        None,
                    ) by {
                if exists|jj: int|
                    0 <= jj < j + 1 && (#[trigger] raw.regions@[jj]).id@ == x && region_verdict(
                        *req,
                        raw.require_aliases@,
                        raw.regions@[jj],
                        None,
                    ) {
                    let jj = choose|jj: int|
                        0 <= jj < j + 1 && (#[trigger] raw.regions@[jj]).id@ == x && region_verdict(
                            *req,
                            raw.require_aliases@,
                            raw.regions@[jj],
                            None,
                        );
                    if jj < j {
                        assert(raw.regions@[jj].id@ == x);
                    }
                }
            }
        }
        j += 1;
    }
    r
}

/// Whether the list holds the id of some region that it does not hold.
fn misses_a_region(r: &Vec<String>, raw: &IntermediateModel) -> (b: bool)
    ensures
        b == exists|id: Seq<char>| on_map(*raw, id) && !#[trigger] r.deep_view().contains(id),
{
    let mut j: usize = 0;
    while j < raw.regions.len()
        invariant
            0 <= j <= raw.regions.len(),
            forall|jj: int| 0 <= jj < j ==> r.deep_view().contains(#[trigger] raw.regions@[jj].id@),
        decreases raw.regions.len() - j,
    {
        let found = holds_name(r, &raw.regions[j].id);
        if !found {
            assert(on_map(*raw, raw.regions@[j as int].id@));
            assert(!r.deep_view().contains(raw.regions@[j as int].id@)) by {
                if r.deep_view().contains(raw.regions@[j as int].id@) {
                    let m = choose|m: int|
                        0 <= m < r.deep_view().len() && r.deep_view()[m] == raw.regions@[j as int].id@;
                    assert(r@[m]@ == raw.regions@[j as int].id@);
                }
            }
            return true;
        }
        assert(r.deep_view().contains(raw.regions@[j as int].id@)) by {
            let m = choose|m: int| 0 <= m < r@.len() && (#[trigger] r@[m])@ == raw.regions@[j as int].id@;
            assert(r.deep_view()[m] == raw.regions@[j as int].id@);
        }
        j += 1;
    }
    assert forall|id: Seq<char>| on_map(*raw, id) implies #[trigger] r.deep_view().contains(id) by {
        let jj = choose|jj: int| 0 <= jj < raw.regions@.len() && (#[trigger] raw.regions@[jj]).id@ == id;
        assert(r.deep_view().contains(raw.regions@[jj].id@));
    }
    false
}

/// Whether the sequence holds exactly the members of the set.
pub open spec fn lists(s: Seq<Seq<char>>, t: Set<Seq<char>>) -> bool {
    forall|x: Seq<char>| #[trigger] s.contains(x) <==> t.contains(x)
}

/// Whether `cands` lists the region sets of the requirements that bound an
/// area, each in order.
pub open spec fn candidates_listed(cands: Seq<Seq<Seq<char>>>, raw: IntermediateModel) -> bool {
    &&& forall|m: int|
        0 <= m < cands.len() ==> sorted_by(#[trigger] cands[m], name_lt()) && exists|k: int|
            0 <= k < raw.requires@.len() && bounds_area(raw, k) && lists(
                cands[m],
                held_in(raw, (#[trigger] raw.requires@[k]).1),
            )
    &&& forall|k: int|
        0 <= k < raw.requires@.len() && bounds_area(raw, k) ==> exists|m: int|
            0 <= m < cands.len() && lists(
                #[trigger] cands[m],
                held_in(raw, (#[trigger] raw.requires@[k]).1),
            )
}

/// Whether `h` says of the requirement that it bounds an area.
fn check_bounds(raw: &IntermediateModel, k: usize, held: &Vec<String>) -> (b: bool)
    requires
        0 <= k < raw.requires@.len(),
        lists(held.deep_view(), held_in(*raw, raw.requires@[k as int].1)),
    ensures
        b == bounds_area(*raw, k as int),
{
    let ghost h = held_in(*raw, raw.requires@[k as int].1);
    let ghost hd = held.deep_view();
    let some = held.len() > 0;
    assert(some == exists|id: Seq<char>| #[trigger] h.contains(id)) by {
        if some {
            assert(hd.contains(hd[0]));
            assert(h.contains(hd[0]));
        }
        if exists|id: Seq<char>| #[trigger] h.contains(id) {
            let id = choose|id: Seq<char>| #[trigger] h.contains(id);
            assert(hd.contains(id));
        }
    }
    let misses = misses_a_region(held, raw);
    assert(misses == exists|id: Seq<char>| on_map(*raw, id) && !#[trigger] h.contains(id)) by {
        if misses {
            let id = choose|id: Seq<char>| on_map(*raw, id) && !#[trigger] hd.contains(id);
            assert(!h.contains(id));
        }
        if exists|id: Seq<char>| on_map(*raw, id) && !#[trigger] h.contains(id) {
            let id = choose|id: Seq<char>| on_map(*raw, id) && !#[trigger] h.contains(id);
            assert(!hd.contains(id));
        }
    }
    some && misses
}

/// The units whose requirement bounds an area, in order, and the regions of
/// each such requirement.
fn area_candidates(raw: &IntermediateModel) -> (r: (Vec<String>, Vec<Vec<String>>))
    requires
        reqs_resolve(raw.requires@, raw.require_aliases@),
    ensures
        area_units_listed(r.0.deep_view(), *raw),
        candidates_listed(r.1.deep_view(), *raw),
{
    let mut names: Vec<String> = Vec::new();
    let mut cands: Vec<Vec<String>> = Vec::new();
    let ghost mut ks: Seq<int> = seq![];
    let ghost mut at: Seq<int> = seq![];
    let mut k: usize = 0;
    while k < raw.requires.len()
        invariant
            0 <= k <= raw.requires.len(),
            reqs_resolve(raw.requires@, raw.require_aliases@),
            sorted_by(names.deep_view(), name_lt()),
            forall|n: Seq<char>|
                #[trigger] names.deep_view().contains(n) <==> exists|kk: int|
                    0 <= kk < k && bounds_area(*raw, kk) && (#[trigger] raw.requires@[kk]).0@ == n,
            ks.len() == cands.deep_view().len(),
            at.len() == k,
            forall|m: int|
                0 <= m < ks.len() ==> 0 <= #[trigger] ks[m] < k && bounds_area(*raw, ks[m]) && sorted_by(
                    cands.deep_view()[m],
                    name_lt(),
                ) && lists(cands.deep_view()[m], held_in(*raw, raw.requires@[ks[m]].1)),
            forall|kk: int|
                0 <= kk < k && bounds_area(*raw, kk) ==> 0 <= #[trigger] at[kk] < ks.len() && ks[at[kk]]
                    == kk,
        decreases raw.requires.len() - k,
    {
        assert(resolves(raw.requires@[k as int].1, raw.require_aliases@, raw.require_aliases@.len()));
        let held = regions_holding(&raw.requires[k].1, raw);
        let bounds = check_bounds(raw, k, &held);
        let ghost old_names = names.deep_view();
        let ghost old_cands = cands.deep_view();
        let ghost hd = held.deep_view();
        if bounds {
            insert_name(&mut names, raw.requires[k].0.clone());
            cands.push(held);
            assert(cands.deep_view() =~= old_cands.push(hd));
            proof {
                at = at.push(ks.len() as int);
                ks = ks.push(k as int);
            }
        } else {
            proof {
                at = at.push(-1);
            }
        }
        proof {
            assert forall|n: Seq<char>|
                #[trigger] names.deep_view().contains(n) <==> exists|kk: int|
                    0 <= kk < k + 1 && bounds_area(*raw, kk) && (#[trigger] raw.requires@[kk]).0@ == n by {
                if exists|kk: int|
                    0 <= kk < k + 1 && bounds_area(*raw, kk) && (#[trigger] raw.requires@[kk]).0@ == n {
                    let kk = choose|kk: int|
                        0 <= kk < k + 1 && bounds_area(*raw, kk) && (#[trigger] raw.requires@[kk]).0@ == n;
                    if kk < k {
                        assert(old_names.contains(n));
                    }
                }
                if names.deep_view().contains(n) && !old_names.contains(n) {
                    assert(raw.requires@[k as int].0@ == n);
                }
            }
            assert forall|m: int| 0 <= m < ks.len() implies 0 <= #[trigger] ks[m] < k + 1 && bounds_area(
                *raw,
                ks[m],
            ) && sorted_by(cands.deep_view()[m], name_lt()) && lists(
                cands.deep_view()[m],
                held_in(*raw, raw.requires@[ks[m]].1),
            ) by {
                if m < old_cands.len() {
                    assert(cands.deep_view()[m] == old_cands[m]);
                }
            }
        }
        k += 1;
    }
    proof {
        let cd = cands.deep_view();
        assert forall|m: int| 0 <= m < cd.len() implies sorted_by(#[trigger] cd[m], name_lt()) && exists|
            kk: int,
        |
            0 <= kk < raw.requires@.len() && bounds_area(*raw, kk) && lists(
                cd[m],
                held_in(*raw, (#[trigger] raw.requires@[kk]).1),
            ) by {
            let kk = ks[m];
            assert(lists(cd[m], held_in(*raw, raw.requires@[kk].1)));
        }
        assert forall|kk: int| 0 <= kk < raw.requires@.len() && bounds_area(*raw, kk) implies exists|
            m: int,
        |
            0 <= m < cd.len() && lists(
                #[trigger] cd[m],
                held_in(*raw, (#[trigger] raw.requires@[kk]).1),
            ) by {
            let m = at[kk];
            assert(lists(cd[m], held_in(*raw, raw.requires@[kk].1)));
        }
    }
    (names, cands)
}

/// The names of `a` that `b` holds too, in the order of `a`.
fn common_names(a: &Vec<String>, b: &Vec<String>) -> (r: Vec<String>)
    requires
        sorted_by(a.deep_view(), name_lt()),
    ensures
        sorted_by(r.deep_view(), name_lt()),
        forall|x: Seq<char>|
            #[trigger] r.deep_view().contains(x) <==> (a.deep_view().contains(x) && b.deep_view().contains(
                x,
            )),
{
    let mut r: Vec<String> = Vec::new();
    let ghost ad = a.deep_view();
    let ghost bd = b.deep_view();
    let mut i: usize = 0;
    while i < a.len()
        invariant
            0 <= i <= a.len(),
            ad == a.deep_view(),
            bd == b.deep_view(),
            sorted_by(ad, name_lt()),
            sorted_by(r.deep_view(), name_lt()),
            forall|m: int|
                0 <= m < r.deep_view().len() ==> exists|k: int|
                    0 <= k < i && #[trigger] ad[k] == #[trigger] r.deep_view()[m],
            forall|x: Seq<char>|
                #[trigger] r.deep_view().contains(x) <==> (exists|k: int| 0 <= k < i && ad[k] == x)
                    && bd.contains(x),
        decreases a.len() - i,
    {
        let found = holds_name(b, &a[i]);
        assert(found == bd.contains(ad[i as int])) by {
            if found {
                let j = choose|j: int| 0 <= j < b@.len() && (#[trigger] b@[j])@ == a@[i as int]@;
                assert(bd[j] == ad[i as int]);
            }
            if bd.contains(ad[i as int]) {
                let j = choose|j: int| 0 <= j < bd.len() && bd[j] == ad[i as int];
                assert(b@[j]@ == a@[i as int]@);
            }
        }
        let ghost old_r = r.deep_view();
        if found {
            r.push(a[i].clone());
            assert(r.deep_view() =~= old_r.push(ad[i as int]));
            assert forall|p: int, q: int| 0 <= p < q < r.deep_view().len() implies #[trigger] name_lt()(
                r.deep_view()[p],
                r.deep_view()[q],
            ) by {
                if q == old_r.len() {
                    let k = choose|k: int| 0 <= k < i && #[trigger] ad[k] == #[trigger] old_r[p];
                    assert(name_lt()(ad[k], ad[i as int]));
                } else {
                    assert(name_lt()(old_r[p], old_r[q]));
                }
            }
        }
        proof {
            assert forall|m: int| 0 <= m < r.deep_view().len() implies exists|k: int|
                0 <= k < i + 1 && #[trigger] ad[k] == #[trigger] r.deep_view()[m] by {
                if m < old_r.len() {
                    let k = choose|k: int| 0 <= k < i && #[trigger] ad[k] == #[trigger] old_r[m];
                    assert(ad[k] == r.deep_view()[m]);
                } else {
                    assert(ad[i as int] == r.deep_view()[m]);
                }
            }
            assert forall|x: Seq<char>|
                #[trigger] r.deep_view().contains(x) <==> (exists|k: int| 0 <= k < i + 1 && ad[k] == x)
                    && bd.contains(x) by {
                if r.deep_view().contains(x) && !old_r.contains(x) {
                    let m = choose|m: int| 0 <= m < r.deep_view().len() && r.deep_view()[m] == x;
                    assert(m == old_r.len());
                    assert(ad[i as int] == x);
                }
                if old_r.contains(x) {
                    let m = choose|m: int| 0 <= m < old_r.len() && old_r[m] == x;
                    assert(r.deep_view()[m] == x);
                }
                if (exists|k: int| 0 <= k < i + 1 && ad[k] == x) && bd.contains(x) {
                    let k = choose|k: int| 0 <= k < i + 1 && ad[k] == x;
                    if k == i {
                        assert(r.deep_view()[r.deep_view().len() - 1] == x);
                    }
                }
            }
        }
        i += 1;
    }
    proof {
        assert forall|x: Seq<char>| #[trigger] r.deep_view().contains(x) <==> (ad.contains(x) && bd.contains(x)) by {
            if ad.contains(x) {
                let k = choose|k: int| 0 <= k < ad.len() && ad[k] == x;
                assert(exists|k: int| 0 <= k < i && ad[k] == x);
            }
        }
    }
    r
}

/// Whether `x` is in every listed region set that holds `id`.
pub open spec fn in_all_holding(cd: Seq<Seq<Seq<char>>>, id: Seq<char>, x: Seq<char>) -> bool {
    forall|m: int| 0 <= m < cd.len() && (#[trigger] cd[m]).contains(id) ==> cd[m].contains(x)
}

/// The regions that every listed region set holding `id` holds, where some
/// set holds it.
fn common_regions(cands: &Vec<Vec<String>>, id: &String) -> (r: Option<Vec<String>>)
    requires
        forall|m: int|
            0 <= m < cands.deep_view().len() ==> sorted_by(#[trigger] cands.deep_view()[m], name_lt()),
    ensures
        (r is None) == (forall|m: int|
            0 <= m < cands.deep_view().len() ==> !(#[trigger] cands.deep_view()[m]).contains(id@)),
        r matches Some(v) ==> sorted_by(v.deep_view(), name_lt()) && forall|x: Seq<char>|
            #[trigger] v.deep_view().contains(x) <==> in_all_holding(cands.deep_view(), id@, x),
{
    let ghost cd = cands.deep_view();
    let mut acc: Option<Vec<String>> = None;
    let mut m: usize = 0;
    while m < cands.len()
        invariant
            0 <= m <= cands.len(),
            cd == cands.deep_view(),
            forall|mm: int| 0 <= mm < cd.len() ==> sorted_by(#[trigger] cd[mm], name_lt()),
            (acc is None) == (forall|mm: int| 0 <= mm < m ==> !(#[trigger] cd[mm]).contains(id@)),
            acc matches Some(v) ==> sorted_by(v.deep_view(), name_lt()) && forall|x: Seq<char>|
                #[trigger] v.deep_view().contains(x) <==> in_all_holding(cd.take(m as int), id@, x),
        decreases cands.len() - m,
    {
        let found = holds_name(&cands[m], id);
        assert(found == cd[m as int].contains(id@)) by {
            if found {
                let j = choose|j: int| 0 <= j < cands@[m as int]@.len() && (#[trigger] cands@[m as int]@[j])@ == id@;
                assert(cd[m as int][j] == id@);
            }
            if cd[m as int].contains(id@) {
                let j = choose|j: int| 0 <= j < cd[m as int].len() && cd[m as int][j] == id@;
                assert(cands@[m as int]@[j]@ == id@);
            }
        }
        let ghost pre = cd.take(m as int);
        let ghost next = cd.take(m + 1);
        assert(next =~= pre.push(cd[m as int]));
        if found {
            let v = match acc {
                None => copy_names(&cands[m]),
                Some(a) => common_names(&a, &cands[m]),
            };
            proof {
                assert forall|x: Seq<char>| #[trigger] v.deep_view().contains(x) <==> in_all_holding(next, id@, x) by {
                    if in_all_holding(next, id@, x) {
                        assert(next[m as int] == cd[m as int]);
                        assert(cd[m as int].contains(x));
                        if acc is Some {
                            assert forall|mm: int| 0 <= mm < pre.len() && (#[trigger] pre[mm]).contains(id@) implies pre[mm].contains(x) by {
                                assert(next[mm] == pre[mm]);
                            }
                        }
                    }
                    if v.deep_view().contains(x) {
                        assert forall|mm: int| 0 <= mm < next.len() && (#[trigger] next[mm]).contains(id@) implies next[mm].contains(x) by {
                            if mm < m {
                                assert(next[mm] == pre[mm]);
                                if acc is None {
                                    assert(!cd[mm].contains(id@));
                                }
                            }
                        }
                    }
                }
            }
            acc = Some(v);
        } else {
            proof {
                if acc is Some {
                    let v = acc.unwrap();
                    assert forall|x: Seq<char>| #[trigger] v.deep_view().contains(x) <==> in_all_holding(next, id@, x) by {
                        if in_all_holding(pre, id@, x) {
                            assert forall|mm: int| 0 <= mm < next.len() && (#[trigger] next[mm]).contains(id@) implies next[mm].contains(x) by {
                                if mm < m {
                                    assert(next[mm] == pre[mm]);
                                }
                            }
                        }
                        if in_all_holding(next, id@, x) {
                            assert forall|mm: int| 0 <= mm < pre.len() && (#[trigger] pre[mm]).contains(id@) implies pre[mm].contains(x) by {
                                assert(next[mm] == pre[mm]);
                            }
                        }
                    }
                }
            }
        }
        m += 1;
    }
    assert(cd.take(cands.len() as int) =~= cd);
    acc
}

proof fn lemma_covered_listed(raw: IntermediateModel, cd: Seq<Seq<Seq<char>>>, id: Seq<char>)
    requires
        candidates_listed(cd, raw),
    ensures
        covered(raw, id) == exists|m: int| 0 <= m < cd.len() && (#[trigger] cd[m]).contains(id),
{
    if covered(raw, id) {
        let k = choose|k: int|
            0 <= k < raw.requires@.len() && bounds_area(raw, k) && held_in(
                raw,
                (#[trigger] raw.requires@[k]).1,
            ).contains(id);
        let m = choose|m: int|
            0 <= m < cd.len() && lists(#[trigger] cd[m], held_in(raw, (#[trigger] raw.requires@[k]).1));
        assert(cd[m].contains(id));
    }
    if exists|m: int| 0 <= m < cd.len() && (#[trigger] cd[m]).contains(id) {
        let m = choose|m: int| 0 <= m < cd.len() && (#[trigger] cd[m]).contains(id);
        let k = choose|k: int|
            0 <= k < raw.requires@.len() && bounds_area(raw, k) && lists(
                cd[m],
                held_in(raw, (#[trigger] raw.requires@[k]).1),
            );
        assert(held_in(raw, raw.requires@[k].1).contains(id));
    }
}

proof fn lemma_area_listed_fwd(raw: IntermediateModel, cd: Seq<Seq<Seq<char>>>, id: Seq<char>, x: Seq<char>)
    requires
        candidates_listed(cd, raw),
        area_of(raw, id).contains(x),
    ensures
        in_all_holding(cd, id, x),
{
    assert forall|m: int| 0 <= m < cd.len() && (#[trigger] cd[m]).contains(id) implies cd[m].contains(x) by {
        let k = choose|k: int|
            0 <= k < raw.requires@.len() && bounds_area(raw, k) && lists(
                cd[m],
                held_in(raw, (#[trigger] raw.requires@[k]).1),
            );
        assert(held_in(raw, raw.requires@[k].1).contains(id));
    }
}

proof fn lemma_area_listed_bwd(raw: IntermediateModel, cd: Seq<Seq<Seq<char>>>, id: Seq<char>, x: Seq<char>)
    requires
        candidates_listed(cd, raw),
        in_all_holding(cd, id, x),
    ensures
        area_of(raw, id).contains(x),
{
    assert forall|k: int|
        0 <= k < raw.requires@.len() && bounds_area(raw, k) && held_in(
            raw,
            (#[trigger] raw.requires@[k]).1,
        ).contains(id) implies held_in(raw, raw.requires@[k].1).contains(x) by {
        let m = choose|m: int|
            0 <= m < cd.len() && lists(#[trigger] cd[m], held_in(raw, (#[trigger] raw.requires@[k]).1));
        assert(cd[m].contains(id));
    }
}

/// The listed region sets are the ones that the requirements bounding an
/// area hold: a region is covered where one of them holds it, and its area
/// is what all of those that hold it hold.
proof fn lemma_common_is_area(raw: IntermediateModel, cd: Seq<Seq<Seq<char>>>, id: Seq<char>)
    requires
        candidates_listed(cd, raw),
    ensures
        covered(raw, id) == exists|m: int| 0 <= m < cd.len() && (#[trigger] cd[m]).contains(id),
        forall|x: Seq<char>| #[trigger] area_of(raw, id).contains(x) == in_all_holding(cd, id, x),
{
    lemma_covered_listed(raw, cd, id);
    assert forall|x: Seq<char>| #[trigger] area_of(raw, id).contains(x) == in_all_holding(cd, id, x) by {
        if area_of(raw, id).contains(x) {
            lemma_area_listed_fwd(raw, cd, id, x);
        }
        if in_all_holding(cd, id, x) {
            lemma_area_listed_bwd(raw, cd, id, x);
        }
    }
}

/// The areas of recruitment, in order, each as its regions in order.
fn areas_of(raw: &IntermediateModel, cands: &Vec<Vec<String>>) -> (r: Vec<Vec<String>>)
    requires
        candidates_listed(cands.deep_view(), *raw),
    ensures
        areas_listed(r.deep_view(), *raw),
{
    let ghost cd = cands.deep_view();
    let mut areas: Vec<Vec<String>> = Vec::new();
    let mut j: usize = 0;
    while j < raw.regions.len()
        invariant
            0 <= j <= raw.regions.len(),
            cd == cands.deep_view(),
            candidates_listed(cd, *raw),
            sorted_by(areas.deep_view(), names_lt()),
            forall|i: int| 0 <= i < areas.deep_view().len() ==> sorted_by(#[trigger] areas.deep_view()[i], name_lt()),
            forall|a: Seq<Seq<char>>|
                #[trigger] areas.deep_view().contains(a) <==> sorted_by(a, name_lt()) && exists|jj: int|
                    0 <= jj < j && covered(*raw, (#[trigger] raw.regions@[jj]).id@) && a.to_set()
                        == area_of(*raw, raw.regions@[jj].id@),
        decreases raw.regions.len() - j,
    {
        let ghost id = raw.regions@[j as int].id@;
        proof {
            lemma_common_is_area(*raw, cd, id);
        }
        let common = common_regions(cands, &raw.regions[j].id);
        let ghost old_areas = areas.deep_view();
        match common {
            None => {
                assert(!covered(*raw, id));
            },
            Some(v) => {
                let ghost vd = v.deep_view();
                assert(covered(*raw, id));
                assert(vd.to_set() =~= area_of(*raw, id));
                insert_names(&mut areas, v);
                assert forall|i: int| 0 <= i < areas.deep_view().len() implies sorted_by(#[trigger] areas.deep_view()[i], name_lt()) by {
                    assert(areas.deep_view().contains(areas.deep_view()[i]));
                    if areas.deep_view()[i] != vd {
                        let k = choose|k: int| 0 <= k < old_areas.len() && old_areas[k] == areas.deep_view()[i];
                        assert(sorted_by(old_areas[k], name_lt()));
                    }
                }
            },
        }
        proof {
            assert forall|a: Seq<Seq<char>>|
                #[trigger] areas.deep_view().contains(a) <==> sorted_by(a, name_lt()) && exists|jj: int|
                    0 <= jj < j + 1 && covered(*raw, (#[trigger] raw.regions@[jj]).id@) && a.to_set()
                        == area_of(*raw, raw.regions@[jj].id@) by {
                if sorted_by(a, name_lt()) && exists|jj: int|
                    0 <= jj < j + 1 && covered(*raw, (#[trigger] raw.regions@[jj]).id@) && a.to_set()
                        == area_of(*raw, raw.regions@[jj].id@) {
                    let jj = choose|jj: int|
                        0 <= jj < j + 1 && covered(*raw, (#[trigger] raw.regions@[jj]).id@) && a.to_set()
                            == area_of(*raw, raw.regions@[jj].id@);
                    if jj < j {
                        assert(old_areas.contains(a));
                    } else {
                        assert(common is Some);
                        let vd = common.unwrap().deep_view();
                        assert(a.to_set() == vd.to_set());
                        assert forall|x: Seq<char>| #[trigger] a.contains(x) <==> vd.contains(x) by {
                            assert(a.to_set().contains(x) == a.contains(x));
                            assert(vd.to_set().contains(x) == vd.contains(x));
                        }
                        lemma_name_order();
                        lemma_sorted_unique(a, vd, name_lt());
                    }
                }
            }
        }
        j += 1;
    }
    areas
}

/// The requirement for a unit by name, or none at all.
pub open spec fn req_or_nothing(reqs: Seq<(String, Requires)>, n: Seq<char>) -> Requires {
    match lookup_alias(reqs, n) {
        Some(r) => r,
        None => Requires::Nothing,
    }
}

proof fn lemma_req_or_nothing_founded(
    reqs: Seq<(String, Requires)>,
    al: Seq<(String, Requires)>,
    n: Seq<char>,
)
    requires
        reqs_resolve(reqs, al),
    ensures
        well_founded(req_or_nothing(reqs, n), al),
{
    if lookup_alias(reqs, n) is Some {
        lemma_lookup_in(reqs, n);
        let i = choose|i: int| 0 <= i < reqs.len() && #[trigger] reqs[i].1 == lookup_alias(reqs, n).unwrap();
        assert(resolves(reqs[i].1, al, al.len()));
    } else {
        assert(resolves(Requires::Nothing, al, 0));
    }
}

/// The region that an id names: the last of that id.
pub open spec fn region_named(rs: Seq<Region>, id: Seq<char>) -> Option<Region>
    decreases rs.len(),
{
    if rs.len() == 0 {
        None
    } else if rs.last().id@ == id {
        Some(rs.last())
    } else {
        region_named(rs.drop_last(), id)
    }
}

fn find_region<'a>(rs: &'a Vec<Region>, id: &String) -> (r: Option<&'a Region>)
    ensures
        match r {
            Some(x) => region_named(rs@, id@) == Some(*x),
            None => region_named(rs@, id@) is None,
        },
{
    let mut i = rs.len();
    assert(rs@.take(i as int) =~= rs@);
    while i > 0
        invariant
            0 <= i <= rs.len(),
            region_named(rs@, id@) == region_named(rs@.take(i as int), id@),
        decreases i,
    {
        assert(rs@.take(i as int).drop_last() =~= rs@.take(i - 1));
        if rs[i - 1].id == *id {
            return Some(&rs[i - 1]);
        }
        i -= 1;
    }
    assert(rs@.take(0) =~= Seq::<Region>::empty());
    None
}

/// Whether the faction `f` can have the unit `n` in every region of the area.
pub open spec fn holds_throughout(raw: IntermediateModel, n: Seq<char>, area: Seq<Seq<char>>, f: Faction) -> bool {
    forall|j: int|
        0 <= j < area.len() ==> match region_named(raw.regions@, #[trigger] area[j]) {
            Some(r) => region_verdict(req_or_nothing(raw.requires@, n), raw.require_aliases@, r, Some(f)),
            None => false,
        }
}

/// The units of `names` (in order) that the faction `f` can have throughout
/// the area.
pub open spec fn area_units(raw: IntermediateModel, names: Seq<Seq<char>>, area: Seq<Seq<char>>, f: Faction) -> Seq<
    Seq<char>,
>
    decreases names.len(),
{
    if names.len() == 0 {
        seq![]
    } else {
        let p = area_units(raw, names.drop_last(), area, f);
        if holds_throughout(raw, names.last(), area, f) {
            p.push(names.last())
        } else {
            p
        }
    }
}

/// The areas of recruitment that the factions (in order) have in the
/// `i`th area: each with the units that the faction can have throughout it,
/// where there are any.
pub open spec fn faction_slots(
    raw: IntermediateModel,
    names: Seq<Seq<char>>,
    i: int,
    area: Seq<Seq<char>>,
    fs: Seq<Faction>,
) -> Seq<(int, Faction, Seq<Seq<char>>)>
    decreases fs.len(),
{
    if fs.len() == 0 {
        seq![]
    } else {
        let p = faction_slots(raw, names, i, area, fs.drop_last());
        let us = area_units(raw, names, area, fs.last());
        if us.len() > 0 {
            p.push((i, fs.last(), us))
        } else {
            p
        }
    }
}

/// The areas of recruitment of every faction: area by area, faction by
/// faction.
pub open spec fn aor_slots(raw: IntermediateModel, names: Seq<Seq<char>>, areas: Seq<Seq<Seq<char>>>) -> Seq<
    (int, Faction, Seq<Seq<char>>),
>
    decreases areas.len(),
{
    if areas.len() == 0 {
        seq![]
    } else {
        aor_slots(raw, names, areas.drop_last()) + faction_slots(
            raw,
            names,
            areas.len() - 1,
            areas.last(),
            raw.factions@,
        )
    }
}

/// The name that the configuration gives the `i`th area, or none.
pub open spec fn aor_name_of(cfg: ModelConfig, i: int) -> Seq<char> {
    if 0 <= i < cfg.aors@.len() {
        cfg.aors@[i]@
    } else {
        seq![]
    }
}

/// What the site shows of an area of recruitment.
pub open spec fn aor_shown(
    a: Aor,
    slot: (int, Faction, Seq<Seq<char>>),
    areas: Seq<Seq<Seq<char>>>,
    cfg: ModelConfig,
) -> bool {
    &&& a.name@ == aor_name_of(cfg, slot.0)
    &&& a.map@ == "aor-"@ + decimal_text((slot.0 + 1) as nat)
    &&& a.faction@ == slot.1.id@
    &&& a.units.deep_view() == slot.2
    &&& a.regions.deep_view() == areas[slot.0]
}

/// Whether the faction can have the unit throughout the area.
fn unit_throughout(raw: &IntermediateModel, n: &String, area: &Vec<String>, f: &Faction) -> (b: bool)
    requires
        reqs_resolve(raw.requires@, raw.require_aliases@),
    ensures
        b == holds_throughout(*raw, n@, area.deep_view(), *f),
{
    let nothing = Requires::Nothing;
    let req = match find_alias(&raw.requires, n) {
        Some(r) => r,
        None => &nothing,
    };
    assert(*req == req_or_nothing(raw.requires@, n@));
    proof {
        lemma_req_or_nothing_founded(raw.requires@, raw.require_aliases@, n@);
    }
    let ghost ad = area.deep_view();
    let mut j: usize = 0;
    while j < area.len()
        invariant
            0 <= j <= area.len(),
            ad == area.deep_view(),
            *req == req_or_nothing(raw.requires@, n@),
            well_founded(*req, raw.require_aliases@),
            forall|jj: int|
                0 <= jj < j ==> match region_named(raw.regions@, #[trigger] ad[jj]) {
                    Some(r) => region_verdict(*req, raw.require_aliases@, r, Some(*f)),
                    None => false,
                },
        decreases area.len() - j,
    {
        assert(ad[j as int] == area@[j as int]@);
        match find_region(&raw.regions, &area[j]) {
            None => {
                return false;
            },
            Some(r) => {
                if !available_in_region(req, r, Some(f), &raw.require_aliases) {
                    return false;
                }
            },
        }
        j += 1;
    }
    true
}

/// The units of `names` that the faction can have throughout the area.
fn units_throughout(raw: &IntermediateModel, names: &Vec<String>, area: &Vec<String>, f: &Faction) -> (r: Vec<
    String,
>)
    requires
        reqs_resolve(raw.requires@, raw.require_aliases@),
    ensures
        r.deep_view() == area_units(*raw, names.deep_view(), area.deep_view(), *f),
{
    let ghost nd = names.deep_view();
    let mut r: Vec<String> = Vec::new();
    let mut i: usize = 0;
    assert(nd.take(0) =~= Seq::<Seq<char>>::empty());
    while i < names.len()
        invariant
            0 <= i <= names.len(),
            nd == names.deep_view(),
            reqs_resolve(raw.requires@, raw.require_aliases@),
            r.deep_view() == area_units(*raw, nd.take(i as int), area.deep_view(), *f),
        decreases names.len() - i,
    {
        assert(nd.take(i + 1).drop_last() =~= nd.take(i as int));
        assert(nd.take(i + 1).last() == names@[i as int]@);
        if unit_throughout(raw, &names[i], area, f) {
            let ghost before = r.deep_view();
            r.push(names[i].clone());
            assert(r.deep_view() =~= before.push(names@[i as int]@));
        }
        i += 1;
    }
    assert(nd.take(names.len() as int) =~= nd);
    r
}

/// The name that the configuration gives the `i`th area.
fn aor_name(cfg: &ModelConfig, i: usize) -> (r: String)
    ensures
        r@ == aor_name_of(*cfg, i as int),
{
    if i < cfg.aors.len() {
        cfg.aors[i].clone()
    } else {
        let v: Vec<char> = Vec::new();
        assert(v@ =~= Seq::<char>::empty());
        string_of(&v)
    }
}

/// The map of the `i`th area: `aor-` and its number from 1.
fn aor_map(i: usize) -> (r: String)
    requires
        i < usize::MAX,
    ensures
        r@ == "aor-"@ + decimal_text((i + 1) as nat),
{
    let mut v = chars_of("aor-");
    let d = decimal((i + 1) as u64);
    append_chars(&mut v, &d);
    string_of(&v)
}

/// Adds the areas of recruitment that the factions have in the `i`th area.
fn push_area_aors(
    raw: &IntermediateModel,
    cfg: &ModelConfig,
    names: &Vec<String>,
    areas: &Vec<Vec<String>>,
    i: usize,
    out: &mut Vec<Aor>,
)
    requires
        reqs_resolve(raw.requires@, raw.require_aliases@),
        i < areas.len(),
    ensures
        final(out)@.len() == old(out)@.len() + faction_slots(
            *raw,
            names.deep_view(),
            i as int,
            areas.deep_view()[i as int],
            raw.factions@,
        ).len(),
        forall|j: int| 0 <= j < old(out)@.len() ==> #[trigger] final(out)@[j] == old(out)@[j],
        forall|j: int|
            0 <= j < faction_slots(
                *raw,
                names.deep_view(),
                i as int,
                areas.deep_view()[i as int],
                raw.factions@,
            ).len() ==> aor_shown(
                #[trigger] final(out)@[old(out)@.len() + j],
                faction_slots(
                    *raw,
                    names.deep_view(),
                    i as int,
                    areas.deep_view()[i as int],
                    raw.factions@,
                )[j],
                areas.deep_view(),
                *cfg,
            ),
{
    let ghost ad = areas.deep_view();
    let ghost nd = names.deep_view();
    let ghost o = out@;
    let fs = &raw.factions;
    let mut fi: usize = 0;
    assert(fs@.take(0) =~= Seq::<Faction>::empty());
    while fi < fs.len()
        invariant
            0 <= fi <= fs.len(),
            fs == &raw.factions,
            i < areas.len(),
            reqs_resolve(raw.requires@, raw.require_aliases@),
            ad == areas.deep_view(),
            nd == names.deep_view(),
            out@.len() == o.len() + faction_slots(*raw, nd, i as int, ad[i as int], fs@.take(fi as int)).len(),
            forall|j: int| 0 <= j < o.len() ==> #[trigger] out@[j] == o[j],
            forall|j: int|
                0 <= j < faction_slots(*raw, nd, i as int, ad[i as int], fs@.take(fi as int)).len()
                    ==> aor_shown(
                    #[trigger] out@[o.len() + j],
                    faction_slots(*raw, nd, i as int, ad[i as int], fs@.take(fi as int))[j],
                    ad,
                    *cfg,
                ),
        decreases fs.len() - fi,
    {
        let ghost pre = fs@.take(fi as int);
        assert(fs@.take(fi + 1).drop_last() =~= pre);
        assert(fs@.take(fi + 1).last() == fs@[fi as int]);
        let ghost slots = faction_slots(*raw, nd, i as int, ad[i as int], pre);
        assert(areas@[i as int].deep_view() == ad[i as int]);
        let units = units_throughout(raw, names, &areas[i], &fs[fi]);
        if units.len() > 0 {
            let a = Aor {
                name: aor_name(cfg, i),
                map: aor_map(i),
                faction: fs[fi].id.clone(),
                units,
                regions: copy_names(&areas[i]),
            };
            let ghost before = out@;
            out.push(a);
            proof {
                let next = faction_slots(*raw, nd, i as int, ad[i as int], fs@.take(fi + 1));
                assert(next == slots.push((i as int, fs@[fi as int], units.deep_view())));
                assert forall|j: int| 0 <= j < next.len() implies aor_shown(
                    #[trigger] out@[o.len() + j],
                    next[j],
                    ad,
                    *cfg,
                ) by {
                    if j < slots.len() {
                        assert(out@[o.len() + j] == before[o.len() + j]);
                    }
                }
            }
        }
        fi += 1;
    }
    assert(fs@.take(fs.len() as int) =~= fs@);
}

proof fn lemma_slots_of_area(
    raw: IntermediateModel,
    names: Seq<Seq<char>>,
    i: int,
    area: Seq<Seq<char>>,
    fs: Seq<Faction>,
)
    ensures
        forall|j: int|
            0 <= j < faction_slots(raw, names, i, area, fs).len() ==> (#[trigger] faction_slots(
                raw,
                names,
                i,
                area,
                fs,
            )[j]).0 == i,
    decreases fs.len(),
{
    if fs.len() > 0 {
        lemma_slots_of_area(raw, names, i, area, fs.drop_last());
        let p = faction_slots(raw, names, i, area, fs.drop_last());
        let t = faction_slots(raw, names, i, area, fs);
        assert forall|j: int| 0 <= j < t.len() implies (#[trigger] t[j]).0 == i by {
            if j < p.len() {
                assert(t[j] == p[j]);
            }
        }
    }
}

/// The areas of recruitment: for each area, in order, each faction that can
/// have some units throughout it, with those units.
pub open spec fn aors_shown(
    out: Seq<Aor>,
    names: Seq<Seq<char>>,
    areas: Seq<Seq<Seq<char>>>,
    cfg: ModelConfig,
    raw: IntermediateModel,
) -> bool {
    let slots = aor_slots(raw, names, areas);
    &&& out.len() == slots.len()
    &&& forall|j: int| 0 <= j < slots.len() ==> aor_shown(#[trigger] out[j], slots[j], areas, cfg)
}

/// The areas of recruitment of the campaign: the regions in which some
/// units can be had and others not, and for each faction the units that it
/// can have there only.
pub fn calculate_aors(cfg: &ModelConfig, raw: &IntermediateModel) -> (out: Vec<Aor>)
    requires
        raw.regions@.len() > 0 ==> reqs_resolve(raw.requires@, raw.require_aliases@),
    ensures
        exists|names: Seq<Seq<char>>, areas: Seq<Seq<Seq<char>>>|
            area_units_listed(names, *raw) && areas_listed(areas, *raw) && #[trigger] aors_shown(
                out@,
                names,
                areas,
                *cfg,
                *raw,
            ),
{
    if raw.regions.len() == 0 {
        let out: Vec<Aor> = Vec::new();
        proof {
            reveal(held_in);
            let names: Seq<Seq<char>> = seq![];
            let areas: Seq<Seq<Seq<char>>> = seq![];
            assert forall|n: Seq<char>| #[trigger] names.contains(n) <==> is_area_unit(*raw, n) by {
                if is_area_unit(*raw, n) {
                    let k = choose|k: int|
                        0 <= k < raw.requires@.len() && bounds_area(*raw, k) && (#[trigger] raw.requires@[k]).0@ == n;
                    let h = held_in(*raw, raw.requires@[k].1);
                    let id = choose|id: Seq<char>| #[trigger] h.contains(id);
                }
            }
            assert(area_units_listed(names, *raw));
            assert(areas_listed(areas, *raw));
            assert(aors_shown(out@, names, areas, *cfg, *raw));
        }
        return out;
    }
    let (names, cands) = area_candidates(raw);
    let areas = areas_of(raw, &cands);
    let ghost nd = names.deep_view();
    let ghost ad = areas.deep_view();
    let mut out: Vec<Aor> = Vec::new();
    let mut i: usize = 0;
    assert(ad.take(0) =~= Seq::<Seq<Seq<char>>>::empty());
    while i < areas.len()
        invariant
            0 <= i <= areas.len(),
            reqs_resolve(raw.requires@, raw.require_aliases@),
            nd == names.deep_view(),
            ad == areas.deep_view(),
            aors_shown(out@, nd, ad.take(i as int), *cfg, *raw),
            forall|j: int|
                0 <= j < aor_slots(*raw, nd, ad.take(i as int)).len() ==> 0 <= (#[trigger] aor_slots(
                    *raw,
                    nd,
                    ad.take(i as int),
                )[j]).0 < i,
        decreases areas.len() - i,
    {
        let ghost pre = ad.take(i as int);
        let ghost next = ad.take(i + 1);
        assert(next.drop_last() =~= pre);
        assert(next.last() == ad[i as int]);
        let ghost before = out@;
        push_area_aors(raw, cfg, &names, &areas, i, &mut out);
        proof {
            let ps = aor_slots(*raw, nd, pre);
            let fsl = faction_slots(*raw, nd, i as int, ad[i as int], raw.factions@);
            assert(aor_slots(*raw, nd, next) == ps + fsl);
            lemma_slots_of_area(*raw, nd, i as int, ad[i as int], raw.factions@);
            assert forall|j: int| 0 <= j < (ps + fsl).len() implies aor_shown(
                #[trigger] out@[j],
                (ps + fsl)[j],
                next,
                *cfg,
            ) by {
                if j < ps.len() {
                    assert((ps + fsl)[j] == ps[j]);
                    assert(out@[j] == before[j]);
                    assert(aor_shown(before[j], ps[j], pre, *cfg));
                    assert(0 <= ps[j].0 < i);
                    assert(pre[ps[j].0] == next[ps[j].0]);
                } else {
                    let q = j - ps.len();
                    assert((ps + fsl)[j] == fsl[q]);
                    assert(out@[before.len() + q] == out@[j]);
                    assert(aor_shown(out@[j], fsl[q], ad, *cfg));
                    assert(fsl[q].0 == i);
                    assert(next[i as int] == ad[i as int]);
                }
            }
            assert forall|j: int| 0 <= j < (ps + fsl).len() implies 0 <= (#[trigger] (ps + fsl)[j]).0 < i + 1 by {
                if j < ps.len() {
                    assert((ps + fsl)[j] == ps[j]);
                    assert(0 <= aor_slots(*raw, nd, pre)[j].0 < i);
                } else {
                    assert((ps + fsl)[j] == fsl[j - ps.len()]);
                }
            }
        }
        i += 1;
    }
    assert(ad.take(areas.len() as int) =~= ad);
    out
}

/// A unit that a pool of mercenaries offers, as the site shows it.
#[derive(Debug)]
pub struct PoolEntry {
    pub unit: SiteUnit,
    pub exp: u32,
    pub replenish: (String, String),
    pub max: u32,
    pub initial: u32,
    pub restrict: Vec<String>,
}

/// A pool of mercenaries as the site shows it.
#[derive(Debug)]
pub struct SitePool {
    pub id: String,
    pub name: String,
    pub regions: Vec<String>,
    pub units: Vec<PoolEntry>,
    pub map: String,
}

/// What the site shows of a unit that a pool offers at its own price: the
/// unit as a mercenary, at that cost.
pub open spec fn entry_shown(
    out: PoolEntry,
    e: crate::parse::descr_mercenaries::Unit,
    cfg: ModelConfig,
    raw: IntermediateModel,
) -> bool {
    let u = raw.unit_map@[id_index(raw.unit_map@, e.id@)];
    &&& unit_shown(SiteUnit { cost: u.stats.cost, ..out.unit }, u, cfg, "mercs"@, raw, seq![])
    &&& out.unit.cost == e.cost
    &&& out.exp == e.exp
    &&& out.replenish.0@ == e.replenish.0@
    &&& out.replenish.1@ == e.replenish.1@
    &&& out.max == e.max
    &&& out.initial == e.initial
    &&& out.restrict.deep_view() == e.restrict.deep_view()
}

/// The name that the configuration gives the `index`th pool, else its id.
pub open spec fn pool_name_of(cfg: ModelConfig, index: int, p: Pool) -> Seq<char> {
    if 0 <= index < cfg.pools@.len() {
        cfg.pools@[index]@
    } else {
        p.id@
    }
}

/// What the site shows of the `index`th pool of mercenaries.
pub open spec fn pool_shown(out: SitePool, p: Pool, index: int, cfg: ModelConfig, raw: IntermediateModel) -> bool {
    &&& out.id@ == p.id@
    &&& out.name@ == pool_name_of(cfg, index, p)
    &&& out.regions.deep_view() == p.regions.deep_view()
    &&& out.units@.len() == p.units@.len()
    &&& forall|k: int| 0 <= k < p.units@.len() ==> entry_shown(#[trigger] out.units@[k], p.units@[k], cfg, raw)
    &&& out.map@ == "pool-"@ + decimal_text((index + 1) as nat)
}

/// Whether every unit that the pool offers is known.
pub open spec fn pool_units_known(p: Pool, raw: IntermediateModel) -> bool {
    forall|k: int| 0 <= k < p.units@.len() ==> id_index(raw.unit_map@, (#[trigger] p.units@[k]).id@) >= 0
}

/// Whether the requirement of every unit that the pool offers resolves.
pub open spec fn pool_units_founded(p: Pool, raw: IntermediateModel) -> bool {
    forall|k: int|
        0 <= k < p.units@.len() ==> founded(
            unit_req(raw.requires@, (#[trigger] p.units@[k]).id@),
            raw.require_aliases@,
        )
}

/// A unit that a pool offers, as the site shows it.
fn build_entry(e: &crate::parse::descr_mercenaries::Unit, cfg: &ModelConfig, raw: &IntermediateModel) -> (out:
    PoolEntry)
    requires
        attrs_fit(*raw),
        id_index(raw.unit_map@, e.id@) >= 0,
        cfg.eras@.len() > 0 ==> founded(unit_req(raw.requires@, e.id@), raw.require_aliases@),
    ensures
        entry_shown(out, *e, *cfg, *raw),
{
    let found = find_unit(&raw.unit_map, &e.id);
    proof {
        lemma_id_index(raw.unit_map@, e.id@);
    }
    let j = found.unwrap();
    let u = &raw.unit_map[j];
    assert(cfg.eras@.len() > 0 ==> resolves(unit_req(raw.requires@, u.id@), raw.require_aliases@, raw.require_aliases@.len()));
    let none: Vec<Aor> = Vec::new();
    let mut unit = build_unit(u, cfg, "mercs", raw, &none);
    assert(none@ =~= Seq::<Aor>::empty());
    let ghost before = unit;
    unit.cost = e.cost;
    assert(SiteUnit { cost: u.stats.cost, ..unit } == before);
    PoolEntry {
        unit,
        exp: e.exp,
        replenish: (e.replenish.0.clone(), e.replenish.1.clone()),
        max: e.max,
        initial: e.initial,
        restrict: copy_names(&e.restrict),
    }
}

/// The map of the `index`th pool: `pool-` and its number from 1.
fn pool_map(index: usize) -> (r: String)
    requires
        index < usize::MAX,
    ensures
        r@ == "pool-"@ + decimal_text((index + 1) as nat),
{
    let mut v = chars_of("pool-");
    let d = decimal((index + 1) as u64);
    append_chars(&mut v, &d);
    string_of(&v)
}

/// The `index`th pool of mercenaries as the site shows it.
pub fn build_pool(p: &Pool, index: usize, cfg: &ModelConfig, raw: &IntermediateModel) -> (out: SitePool)
    requires
        attrs_fit(*raw),
        pool_units_known(*p, *raw),
        cfg.eras@.len() > 0 ==> pool_units_founded(*p, *raw),
        index < usize::MAX,
    ensures
        pool_shown(out, *p, index as int, *cfg, *raw),
{
    let mut units: Vec<PoolEntry> = Vec::new();
    let mut k: usize = 0;
    while k < p.units.len()
        invariant
            0 <= k <= p.units.len(),
            attrs_fit(*raw),
            pool_units_known(*p, *raw),
            cfg.eras@.len() > 0 ==> pool_units_founded(*p, *raw),
            units@.len() == k,
            forall|m: int| 0 <= m < k ==> entry_shown(#[trigger] units@[m], p.units@[m], *cfg, *raw),
        decreases p.units.len() - k,
    {
        let e = build_entry(&p.units[k], cfg, raw);
        units.push(e);
        k += 1;
    }
    SitePool {
        id: p.id.clone(),
        name: if index < cfg.pools.len() {
            cfg.pools[index].clone()
        } else {
            p.id.clone()
        },
        regions: copy_names(&p.regions),
        units,
        map: pool_map(index),
    }
}

/// The place that descr_strat gives a faction: that of its last entry.
pub open spec fn strat_of(strat: Seq<(String, usize)>, id: Seq<char>) -> Option<usize>
    decreases strat.len(),
{
    if strat.len() == 0 {
        None
    } else if strat.last().0@ == id {
        Some(strat.last().1)
    } else {
        strat_of(strat.drop_last(), id)
    }
}

/// Whether descr_strat gives the faction the place `v`.
pub open spec fn has_place(strat: Seq<(String, usize)>, f: Faction, v: int) -> bool {
    match strat_of(strat, f.id@) {
        Some(p) => p == v,
        None => false,
    }
}

/// The factions (in order) that have the place `v`.
pub open spec fn with_rank(fs: Seq<Faction>, strat: Seq<(String, usize)>, v: int) -> Seq<Faction>
    decreases fs.len(),
{
    if fs.len() == 0 {
        seq![]
    } else {
        let p = with_rank(fs.drop_last(), strat, v);
        if has_place(strat, fs.last(), v) {
            p.push(fs.last())
        } else {
            p
        }
    }
}

/// The factions with a place below `n`: place by place, each place's
/// factions in their own order.
pub open spec fn ranked(fs: Seq<Faction>, strat: Seq<(String, usize)>, n: int) -> Seq<Faction>
    decreases n,
{
    if n <= 0 {
        seq![]
    } else {
        ranked(fs, strat, n - 1) + with_rank(fs, strat, n - 1)
    }
}

/// One more than the highest place.
pub open spec fn strat_bound(strat: Seq<(String, usize)>) -> int
    decreases strat.len(),
{
    if strat.len() == 0 {
        0
    } else {
        let b = strat_bound(strat.drop_last());
        if b > strat.last().1 + 1 {
            b
        } else {
            strat.last().1 + 1
        }
    }
}

/// The factions that descr_strat places, ordered by their place (a stable
/// sort): those of one place keep their order.
pub open spec fn strat_order(fs: Seq<Faction>, strat: Seq<(String, usize)>) -> Seq<Faction> {
    ranked(fs, strat, strat_bound(strat))
}

proof fn lemma_strat_bound(strat: Seq<(String, usize)>, id: Seq<char>)
    ensures
        strat_of(strat, id) matches Some(v) ==> v < strat_bound(strat),
        strat_bound(strat) >= 0,
    decreases strat.len(),
{
    if strat.len() > 0 {
        lemma_strat_bound(strat.drop_last(), id);
    }
}

proof fn lemma_no_rank(fs: Seq<Faction>, strat: Seq<(String, usize)>, v: int)
    requires
        forall|i: int| 0 <= i < fs.len() ==> !has_place(strat, #[trigger] fs[i], v),
    ensures
        with_rank(fs, strat, v) == Seq::<Faction>::empty(),
    decreases fs.len(),
{
    if fs.len() > 0 {
        assert forall|i: int| 0 <= i < fs.drop_last().len() implies !has_place(
            strat,
            #[trigger] fs.drop_last()[i],
            v,
        ) by {
            assert(fs.drop_last()[i] == fs[i]);
        }
        lemma_no_rank(fs.drop_last(), strat, v);
        assert(!has_place(strat, fs[fs.len() - 1], v));
    }
}

/// Whether the faction's place (if any) is outside `[a, b)`.
pub open spec fn place_outside(strat: Seq<(String, usize)>, f: Faction, a: int, b: int) -> bool {
    match strat_of(strat, f.id@) {
        Some(p) => !(a <= p && p < b),
        None => true,
    }
}

/// No place in `[a, b)` adds a faction.
proof fn lemma_ranked_gap(fs: Seq<Faction>, strat: Seq<(String, usize)>, a: int, b: int)
    requires
        0 <= a <= b,
        forall|i: int| 0 <= i < fs.len() ==> place_outside(strat, #[trigger] fs[i], a, b),
    ensures
        ranked(fs, strat, b) == ranked(fs, strat, a),
    decreases b - a,
{
    if b > a {
        lemma_ranked_gap(fs, strat, a, b - 1);
        assert forall|i: int| 0 <= i < fs.len() implies !has_place(strat, #[trigger] fs[i], b - 1) by {
            assert(place_outside(strat, fs[i], a, b));
        }
        lemma_no_rank(fs, strat, b - 1);
        assert(ranked(fs, strat, b) =~= ranked(fs, strat, b - 1));
    }
}

fn strat_place(strat: &Vec<(String, usize)>, id: &String) -> (r: Option<usize>)
    ensures
        r == strat_of(strat@, id@),
{
    let mut i = strat.len();
    assert(strat@.take(i as int) =~= strat@);
    while i > 0
        invariant
            0 <= i <= strat.len(),
            strat_of(strat@, id@) == strat_of(strat@.take(i as int), id@),
        decreases i,
    {
        assert(strat@.take(i as int).drop_last() =~= strat@.take(i - 1));
        if strat[i - 1].0 == *id {
            return Some(strat[i - 1].1);
        }
        i -= 1;
    }
    assert(strat@.take(0) =~= Seq::<(String, usize)>::empty());
    None
}

/// The smallest place above `prev` (any place where `prev` is `None`).
fn next_place(places: &Vec<Option<usize>>, prev: Option<usize>) -> (r: Option<usize>)
    ensures
        r matches Some(b) ==> (prev matches Some(p) ==> p < b) && exists|i: int|
            0 <= i < places@.len() && places@[i] == Some(b),
        forall|i: int, v: usize|
            0 <= i < places@.len() && places@[i] == Some(v) && (prev matches Some(p) ==> p < v) ==> (r matches Some(
                b,
            ) && b <= v),
{
    let mut best: Option<usize> = None;
    let mut i: usize = 0;
    while i < places.len()
        invariant
            0 <= i <= places.len(),
            best matches Some(b) ==> (prev matches Some(p) ==> p < b) && exists|k: int|
                0 <= k < places@.len() && places@[k] == Some(b),
            forall|k: int, v: usize|
                0 <= k < i && places@[k] == Some(v) && (prev matches Some(p) ==> p < v) ==> (best matches Some(
                    b,
                ) && b <= v),
        decreases places.len() - i,
    {
        if let Some(v) = places[i] {
            let above = match prev {
                Some(p) => p < v,
                None => true,
            };
            if above {
                let smaller = match best {
                    Some(b) => v < b,
                    None => true,
                };
                if smaller {
                    best = Some(v);
                }
            }
        }
        i += 1;
    }
    best
}

/// The factions that descr_strat places, by index, in their order there.
fn strat_indices(fs: &Vec<Faction>, strat: &Vec<(String, usize)>) -> (r: Vec<usize>)
    ensures
        r@.len() == strat_order(fs@, strat@).len(),
        forall|k: int| 0 <= k < r@.len() ==> r@[k] < fs@.len() && fs@[#[trigger] r@[k] as int] == strat_order(
            fs@,
            strat@,
        )[k],
{
    let mut places: Vec<Option<usize>> = Vec::new();
    let mut i: usize = 0;
    while i < fs.len()
        invariant
            0 <= i <= fs.len(),
            places@.len() == i,
            forall|k: int| 0 <= k < i ==> #[trigger] places@[k] == strat_of(strat@, fs@[k].id@),
        decreases fs.len() - i,
    {
        places.push(strat_place(strat, &fs[i].id));
        i += 1;
    }
    let mut r: Vec<usize> = Vec::new();
    let mut prev: Option<usize> = None;
    let ghost mut done: int = 0;
    loop
        invariant
            places@.len() == fs@.len(),
            forall|k: int| 0 <= k < fs@.len() ==> #[trigger] places@[k] == strat_of(strat@, fs@[k].id@),
            0 <= done,
            prev matches Some(p) ==> done == p + 1,
            prev is None ==> done == 0,
            r@.len() == ranked(fs@, strat@, done).len(),
            forall|k: int| 0 <= k < r@.len() ==> r@[k] < fs@.len() && fs@[#[trigger] r@[k] as int] == ranked(
                fs@,
                strat@,
                done,
            )[k],
        ensures
            r@.len() == strat_order(fs@, strat@).len(),
            forall|k: int| 0 <= k < r@.len() ==> r@[k] < fs@.len() && fs@[#[trigger] r@[k] as int] == strat_order(
                fs@,
                strat@,
            )[k],
        decreases strat_bound(strat@) - done,
    {
        let next = next_place(&places, prev);
        match next {
            None => {
                proof {
                    let bound = strat_bound(strat@);
                    assert forall|k: int| 0 <= k < fs@.len() implies !(strat_of(strat@, (#[trigger] fs@[k]).id@) matches Some(v) && v >= done) by {
                        lemma_strat_bound(strat@, fs@[k].id@);
                        match strat_of(strat@, fs@[k].id@) {
                            Some(v) => {
                                if v >= done {
                                    assert(places@[k] == Some(v));
                                }
                            },
                            None => {},
                        }
                    }
                    if done < bound {
                        assert forall|k: int| 0 <= k < fs@.len() implies place_outside(strat@, #[trigger] fs@[k], done, bound) by {}
                        lemma_ranked_gap(fs@, strat@, done, bound);
                    } else {
                        lemma_strat_bound(strat@, seq![]);
                        if bound < done {
                            assert forall|k: int| 0 <= k < fs@.len() implies place_outside(strat@, #[trigger] fs@[k], bound, done) by {
                                lemma_strat_bound(strat@, fs@[k].id@);
                            }
                            lemma_ranked_gap(fs@, strat@, bound, done);
                        }
                    }
                    assert(ranked(fs@, strat@, done) == strat_order(fs@, strat@));
                }
                break;
            },
            Some(b) => {
                proof {
                    assert forall|k: int| 0 <= k < fs@.len() implies place_outside(strat@, #[trigger] fs@[k], done, b as int) by {
                        match strat_of(strat@, fs@[k].id@) {
                            Some(v) => {
                                assert(places@[k] == Some(v));
                            },
                            None => {},
                        }
                    }
                    lemma_ranked_gap(fs@, strat@, done, b as int);
                    let i0 = choose|i: int| 0 <= i < places@.len() && places@[i] == Some(b);
                    lemma_strat_bound(strat@, fs@[i0].id@);
                }
                let ghost base = r@;
                let mut i: usize = 0;
                assert(fs@.take(0) =~= Seq::<Faction>::empty());
                while i < fs.len()
                    invariant
                        0 <= i <= fs.len(),
                        places@.len() == fs@.len(),
                        forall|k: int| 0 <= k < fs@.len() ==> #[trigger] places@[k] == strat_of(strat@, fs@[k].id@),
                        r@.len() == base.len() + with_rank(fs@.take(i as int), strat@, b as int).len(),
                        forall|k: int| 0 <= k < base.len() ==> #[trigger] r@[k] == base[k],
                        forall|k: int| 0 <= k < with_rank(fs@.take(i as int), strat@, b as int).len() ==> #[trigger] r@[base.len() + k] < fs@.len() && fs@[r@[base.len() + k] as int] == with_rank(fs@.take(i as int), strat@, b as int)[k],
                    decreases fs.len() - i,
                {
                    assert(fs@.take(i + 1).drop_last() =~= fs@.take(i as int));
                    assert(fs@.take(i + 1).last() == fs@[i as int]);
                    if places[i] == Some(b) {
                        r.push(i);
                    }
                    i += 1;
                }
                assert(fs@.take(fs.len() as int) =~= fs@);
                proof {
                    let nr = ranked(fs@, strat@, b + 1);
                    assert(nr == ranked(fs@, strat@, done) + with_rank(fs@, strat@, b as int));
                    assert forall|k: int| 0 <= k < r@.len() implies r@[k] < fs@.len() && fs@[#[trigger] r@[k] as int] == nr[k] by {
                        if k < base.len() {
                            assert(r@[k] == base[k]);
                        } else {
                            assert(r@[base.len() + (k - base.len())] == r@[k]);
                        }
                    }
                    done = b + 1;
                }
                prev = Some(b);
            },
        }
    }
    r
}

/// A region as the site shows it.
#[derive(Debug)]
pub struct SiteRegion {
    pub id: String,
    pub legion: Option<String>,
    pub color: (u8, u8, u8),
    pub hidden_resources: Vec<String>,
}

/// What the site shows of a region.
pub open spec fn region_shown(out: SiteRegion, r: Region) -> bool {
    &&& out.id@ == r.id@
    &&& opt_string_seq(out.legion) == opt_string_seq(r.legion)
    &&& out.color == r.color
    &&& out.hidden_resources.deep_view() == r.hidden_resources.deep_view()
}

/// The ids in order of first appearance, once each.
pub open spec fn first_ids(ids: Seq<Seq<char>>) -> Seq<Seq<char>>
    decreases ids.len(),
{
    if ids.len() == 0 {
        seq![]
    } else {
        let p = first_ids(ids.drop_last());
        if p.contains(ids.last()) {
            p
        } else {
            p.push(ids.last())
        }
    }
}

proof fn lemma_first_ids(ids: Seq<Seq<char>>)
    ensures
        first_ids(ids).no_duplicates(),
        forall|x: Seq<char>| #[trigger] first_ids(ids).contains(x) <==> ids.contains(x),
    decreases ids.len(),
{
    if ids.len() > 0 {
        let q = ids.drop_last();
        lemma_first_ids(q);
        let p = first_ids(q);
        assert forall|x: Seq<char>| #[trigger] first_ids(ids).contains(x) <==> ids.contains(x) by {
            if ids.contains(x) {
                let i = choose|i: int| 0 <= i < ids.len() && ids[i] == x;
                if i < ids.len() - 1 {
                    assert(q[i] == x);
                    assert(p.contains(x));
                    if !p.contains(ids.last()) {
                        let k = choose|k: int| 0 <= k < p.len() && p[k] == x;
                        assert(p.push(ids.last())[k] == x);
                    }
                } else if !p.contains(ids.last()) {
                    assert(p.push(ids.last())[p.len() as int] == x);
                }
            }
            if first_ids(ids).contains(x) {
                if p.contains(x) {
                    let i = choose|i: int| 0 <= i < q.len() && q[i] == x;
                    assert(ids[i] == x);
                } else {
                    let k = choose|k: int| 0 <= k < p.push(ids.last()).len() && p.push(ids.last())[k] == x;
                    assert(ids[ids.len() - 1] == x);
                }
            }
        }
    }
}

pub open spec fn region_ids(rs: Seq<Region>) -> Seq<Seq<char>> {
    Seq::new(rs.len(), |i: int| rs[i].id@)
}

/// The regions keyed by id, as a map filled in order keeps them: each id
/// where it first came, with what is shown of its last region.
pub open spec fn regions_keyed(out: Seq<(String, SiteRegion)>, rs: Seq<Region>) -> bool {
    let ids = first_ids(region_ids(rs));
    &&& out.len() == ids.len()
    &&& forall|p: int| 0 <= p < out.len() ==> region_entry(#[trigger] out[p], rs, ids[p])
}

/// Whether the entry is the region `id` as the site shows its last region
/// of that id.
pub open spec fn region_entry(e: (String, SiteRegion), rs: Seq<Region>, id: Seq<char>) -> bool {
    &&& e.0@ == id
    &&& match region_named(rs, id) {
        Some(r) => region_shown(e.1, r),
        None => false,
    }
}

/// What a map of regions holds: its keys and values, in the map's order.
pub uninterp spec fn region_entries(m: IndexMap<String, SiteRegion>) -> Seq<(Seq<char>, SiteRegion)>;

/// What a map of factions holds: its keys and values, in the map's order.
pub uninterp spec fn faction_entries(m: IndexMap<String, SiteFaction>) -> Seq<(Seq<char>, SiteFaction)>;

/// Where the entry with key `k` is, else -1.
pub open spec fn key_index<V>(es: Seq<(Seq<char>, V)>, k: Seq<char>) -> int
    decreases es.len(),
{
    if es.len() == 0 {
        -1
    } else if es.last().0 == k {
        es.len() - 1
    } else {
        key_index(es.drop_last(), k)
    }
}

/// The entries after an insert into an `IndexMap`: an entry with an equal
/// key keeps its place and takes the value; otherwise the pair comes last.
pub open spec fn keyed_insert<V>(es: Seq<(Seq<char>, V)>, k: Seq<char>, v: V) -> Seq<(Seq<char>, V)> {
    let j = key_index(es, k);
    if j < 0 {
        es.push((k, v))
    } else {
        es.update(j, (k, v))
    }
}

proof fn lemma_key_index<V>(es: Seq<(Seq<char>, V)>, k: Seq<char>)
    ensures
        -1 <= key_index(es, k) < es.len(),
        key_index(es, k) >= 0 ==> es[key_index(es, k)].0 == k,
        key_index(es, k) < 0 ==> forall|i: int| 0 <= i < es.len() ==> (#[trigger] es[i]).0 != k,
    decreases es.len(),
{
    if es.len() > 0 && es.last().0 != k {
        lemma_key_index(es.drop_last(), k);
        assert forall|i: int| 0 <= i < es.len() - 1 implies #[trigger] es[i] == es.drop_last()[i] by {}
    }
}

/// `IndexMap::new`: a map of regions with no entries.
#[verifier::external_body]
fn new_region_map() -> (m: IndexMap<String, SiteRegion>)
    ensures
        region_entries(m) == Seq::<(Seq<char>, SiteRegion)>::empty(),
{
    IndexMap::new()
}

/// `IndexMap::insert`: where an equal key is in the map, its entry keeps
/// its place and takes the value; otherwise the pair is added last.
#[verifier::external_body]
fn insert_region(m: &mut IndexMap<String, SiteRegion>, k: String, v: SiteRegion)
    ensures
        region_entries(*final(m)) == keyed_insert(region_entries(*old(m)), k@, v),
{
    m.insert(k, v);
}

/// `IndexMap::into_iter`: the keys and values, in the map's order.
#[verifier::external_body]
fn region_pairs(m: IndexMap<String, SiteRegion>) -> (r: Vec<(String, SiteRegion)>)
    ensures
        r@.len() == region_entries(m).len(),
        forall|i: int|
            0 <= i < r@.len() ==> (#[trigger] r@[i]).0@ == region_entries(m)[i].0 && r@[i].1
                == region_entries(m)[i].1,
{
    m.into_iter().collect()
}

/// `IndexMap::new`: a map of factions with no entries.
#[verifier::external_body]
fn new_faction_map() -> (m: IndexMap<String, SiteFaction>)
    ensures
        faction_entries(m) == Seq::<(Seq<char>, SiteFaction)>::empty(),
{
    IndexMap::new()
}

/// `IndexMap::insert`: where an equal key is in the map, its entry keeps
/// its place and takes the value; otherwise the pair is added last.
#[verifier::external_body]
fn insert_faction(m: &mut IndexMap<String, SiteFaction>, k: String, v: SiteFaction)
    ensures
        faction_entries(*final(m)) == keyed_insert(faction_entries(*old(m)), k@, v),
{
    m.insert(k, v);
}

/// `IndexMap::into_iter`: the keys and values, in the map's order.
#[verifier::external_body]
fn faction_pairs(m: IndexMap<String, SiteFaction>) -> (r: Vec<(String, SiteFaction)>)
    ensures
        r@.len() == faction_entries(m).len(),
        forall|i: int|
            0 <= i < r@.len() ==> (#[trigger] r@[i]).0@ == faction_entries(m)[i].0 && r@[i].1
                == faction_entries(m)[i].1,
{
    m.into_iter().collect()
}

/// The regions keyed by id, as entries of a map.
pub open spec fn region_entries_keyed(es: Seq<(Seq<char>, SiteRegion)>, rs: Seq<Region>) -> bool {
    let ids = first_ids(region_ids(rs));
    &&& es.len() == ids.len()
    &&& forall|p: int|
        0 <= p < es.len() ==> (#[trigger] es[p]).0 == ids[p] && match region_named(rs, ids[p]) {
            Some(r) => region_shown(es[p].1, r),
            None => false,
        }
}

fn site_region(r: &Region) -> (out: SiteRegion)
    ensures
        region_shown(out, *r),
{
    SiteRegion {
        id: r.id.clone(),
        legion: match &r.legion {
            Some(l) => Some(l.clone()),
            None => None,
        },
        color: r.color,
        hidden_resources: copy_names(&r.hidden_resources),
    }
}

/// The regions keyed by id, in a map filled in order.
fn keyed_regions(rs: &Vec<Region>) -> (out: Vec<(String, SiteRegion)>)
    ensures
        regions_keyed(out@, rs@),
{
    let mut m = new_region_map();
    let mut j: usize = 0;
    assert(rs@.take(0) =~= Seq::<Region>::empty());
    assert(region_ids(rs@.take(0)) =~= Seq::<Seq<char>>::empty());
    while j < rs.len()
        invariant
            0 <= j <= rs.len(),
            region_entries_keyed(region_entries(m), rs@.take(j as int)),
        decreases rs.len() - j,
    {
        let ghost pre = rs@.take(j as int);
        let ghost next = rs@.take(j + 1);
        let ghost id = rs@[j as int].id@;
        assert(next.drop_last() =~= pre);
        assert(next.last() == rs@[j as int]);
        assert(region_ids(next) =~= region_ids(pre).push(id));
        assert(region_ids(next).drop_last() =~= region_ids(pre));
        proof {
            lemma_first_ids(region_ids(pre));
        }
        let ghost ids = first_ids(region_ids(pre));
        let ghost before = region_entries(m);
        proof {
            lemma_key_index(before, id);
        }
        let v = site_region(&rs[j]);
        let ghost gv = v;
        let k = rs[j].id.clone();
        insert_region(&mut m, k, v);
        proof {
            let es = region_entries(m);
            let ki = key_index(before, id);
            assert(region_named(next, id) == Some(rs@[j as int]));
            assert(es == keyed_insert(before, id, gv));
            if ki >= 0 {
                assert(es == before.update(ki, (id, gv)));
                assert(ids[ki] == id);
                assert(ids.contains(id));
                assert(first_ids(region_ids(next)) == ids);
                assert forall|q: int| 0 <= q < es.len() implies (#[trigger] es[q]).0 == ids[q] && match region_named(next, ids[q]) {
                    Some(r) => region_shown(es[q].1, r),
                    None => false,
                } by {
                    if q != ki {
                        assert(ids[q] != ids[ki]);
                        assert(es[q] == before[q]);
                    } else {
                        assert(es[q] == (id, gv));
                    }
                }
                assert(region_entries_keyed(es, next));
            } else {
                assert(!ids.contains(id)) by {
                    if ids.contains(id) {
                        let q = choose|q: int| 0 <= q < ids.len() && ids[q] == id;
                        assert(before[q].0 == ids[q]);
                    }
                }
                assert(es == before.push((id, gv)));
                assert(first_ids(region_ids(next)) == ids.push(id));
                assert forall|q: int| 0 <= q < es.len() implies (#[trigger] es[q]).0 == ids.push(id)[q] && match region_named(next, ids.push(id)[q]) {
                    Some(r) => region_shown(es[q].1, r),
                    None => false,
                } by {
                    if q < before.len() {
                        assert(es[q] == before[q]);
                        assert(ids[q] != id) by {
                            if ids[q] == id {
                                assert(ids.contains(id));
                            }
                        }
                    } else {
                        assert(es[q] == (id, gv));
                    }
                }
                assert(region_entries_keyed(es, next));
            }
        }
        j += 1;
    }
    assert(rs@.take(rs.len() as int) =~= rs@);
    let ghost es = region_entries(m);
    let out = region_pairs(m);
    assert forall|p: int| 0 <= p < out@.len() implies region_entry(#[trigger] out@[p], rs@, first_ids(region_ids(rs@))[p]) by {
        assert(es[p].0 == first_ids(region_ids(rs@))[p]);
    }
    out
}

/// The factions that the configuration does not leave out, in order.
pub open spec fn not_excluded(fs: Seq<Faction>, ex: Seq<Seq<char>>) -> Seq<Faction>
    decreases fs.len(),
{
    if fs.len() == 0 {
        seq![]
    } else {
        let p = not_excluded(fs.drop_last(), ex);
        if ex.contains(fs.last().id@) {
            p
        } else {
            p.push(fs.last())
        }
    }
}

/// The factions that the site shows, in order: those that descr_strat
/// places, by place, but for those left out.
pub open spec fn shown_factions(fs: Seq<Faction>, strat: Seq<(String, usize)>, ex: Seq<Seq<char>>) -> Seq<
    Faction,
> {
    not_excluded(strat_order(fs, strat), ex)
}

pub open spec fn faction_ids(fs: Seq<Faction>) -> Seq<Seq<char>> {
    Seq::new(fs.len(), |i: int| fs[i].id@)
}

/// The last faction with the id.
pub open spec fn faction_named(fs: Seq<Faction>, id: Seq<char>) -> Option<Faction>
    decreases fs.len(),
{
    if fs.len() == 0 {
        None
    } else if fs.last().id@ == id {
        Some(fs.last())
    } else {
        faction_named(fs.drop_last(), id)
    }
}

/// Whether the entry is the faction `id` as the site shows its last
/// faction of that id.
pub open spec fn faction_entry(
    e: (String, SiteFaction),
    fs: Seq<Faction>,
    id: Seq<char>,
    cfg: ModelConfig,
    raw: IntermediateModel,
    aors: Seq<Aor>,
) -> bool {
    &&& e.0@ == id
    &&& match faction_named(fs, id) {
        Some(f) => faction_shown(e.1, f, cfg, raw, aors),
        None => false,
    }
}

/// The factions keyed by id, as a map filled in order keeps them.
pub open spec fn factions_keyed(
    out: Seq<(String, SiteFaction)>,
    fs: Seq<Faction>,
    cfg: ModelConfig,
    raw: IntermediateModel,
    aors: Seq<Aor>,
) -> bool {
    let ids = first_ids(faction_ids(fs));
    &&& out.len() == ids.len()
    &&& forall|p: int| 0 <= p < out.len() ==> faction_entry(#[trigger] out[p], fs, ids[p], cfg, raw, aors)
}

/// The factions keyed by id, as entries of a map.
pub open spec fn faction_entries_keyed(
    es: Seq<(Seq<char>, SiteFaction)>,
    fs: Seq<Faction>,
    cfg: ModelConfig,
    raw: IntermediateModel,
    aors: Seq<Aor>,
) -> bool {
    let ids = first_ids(faction_ids(fs));
    &&& es.len() == ids.len()
    &&& forall|p: int|
        0 <= p < es.len() ==> (#[trigger] es[p]).0 == ids[p] && match faction_named(fs, ids[p]) {
            Some(f) => faction_shown(es[p].1, f, cfg, raw, aors),
            None => false,
        }
}

proof fn lemma_faction_entries_keyed(
    es: Seq<(Seq<char>, SiteFaction)>,
    fs: Seq<Faction>,
    cfg: ModelConfig,
    raw: IntermediateModel,
    aors: Seq<Aor>,
)
    requires
        es.len() == first_ids(faction_ids(fs)).len(),
        forall|p: int|
            0 <= p < es.len() ==> (#[trigger] es[p]).0 == first_ids(faction_ids(fs))[p] && match faction_named(fs, first_ids(faction_ids(fs))[p]) {
                Some(g) => faction_shown(es[p].1, g, cfg, raw, aors),
                None => false,
            },
    ensures
        faction_entries_keyed(es, fs, cfg, raw, aors),
{
}

/// The factions that the site shows, keyed by id, each with its roster.
fn keyed_factions(cfg: &ModelConfig, raw: &IntermediateModel, aors: &Vec<Aor>) -> (out: Vec<
    (String, SiteFaction),
>)
    requires
        model_ok(*raw),
    ensures
        factions_keyed(
            out@,
            shown_factions(raw.factions@, raw.strat@, cfg.exclude.deep_view()),
            *cfg,
            *raw,
            aors@,
        ),
{
    let order = strat_indices(&raw.factions, &raw.strat);
    let ghost ordered = strat_order(raw.factions@, raw.strat@);
    let ghost ex = cfg.exclude.deep_view();
    let mut m = new_faction_map();
    let mut k: usize = 0;
    assert(ordered.take(0) =~= Seq::<Faction>::empty());
    assert(faction_ids(not_excluded(ordered.take(0), ex)) =~= Seq::<Seq<char>>::empty());
    while k < order.len()
        invariant
            0 <= k <= order.len(),
            model_ok(*raw),
            ex == cfg.exclude.deep_view(),
            ordered == strat_order(raw.factions@, raw.strat@),
            order@.len() == ordered.len(),
            forall|m: int| 0 <= m < order@.len() ==> order@[m] < raw.factions@.len() && raw.factions@[#[trigger] order@[m] as int] == ordered[m],
            faction_entries_keyed(faction_entries(m), not_excluded(ordered.take(k as int), ex), *cfg, *raw, aors@),
        decreases order.len() - k,
    {
        let ghost pre = ordered.take(k as int);
        let ghost next = ordered.take(k + 1);
        assert(next.drop_last() =~= pre);
        assert(next.last() == ordered[k as int]);
        assert(raw.factions@[order@[k as int] as int] == ordered[k as int]);
        let f = &raw.factions[order[k]];
        let ghost sp = not_excluded(pre, ex);
        let excluded = holds_name(&cfg.exclude, &f.id);
        assert(excluded == ex.contains(f.id@)) by {
            if excluded {
                let j = choose|j: int| 0 <= j < cfg.exclude@.len() && (#[trigger] cfg.exclude@[j])@ == f.id@;
                assert(ex[j] == f.id@);
            }
            if ex.contains(f.id@) {
                let j = choose|j: int| 0 <= j < ex.len() && ex[j] == f.id@;
                assert(cfg.exclude@[j]@ == f.id@);
            }
        }
        if !excluded {
            let ghost sn = sp.push(*f);
            assert(not_excluded(next, ex) == sn);
            assert(sn.drop_last() =~= sp);
            assert(sn.last() == *f);
            assert(faction_named(sn, f.id@) == Some(*f));
            let ghost id = f.id@;
            assert(faction_ids(sn) =~= faction_ids(sp).push(id));
            assert(faction_ids(sn).drop_last() =~= faction_ids(sp));
            proof {
                lemma_first_ids(faction_ids(sp));
            }
            let ghost ids = first_ids(faction_ids(sp));
            let ghost before = faction_entries(m);
            proof {
                lemma_key_index(before, id);
            }
            let v = build_faction(f, cfg, raw, aors);
            let ghost gv = v;
            let key = f.id.clone();
            insert_faction(&mut m, key, v);
            proof {
                let es = faction_entries(m);
                let ki = key_index(before, id);
                assert(es == keyed_insert(before, id, gv));
                if ki >= 0 {
                    assert(es == before.update(ki, (id, gv)));
                    assert(ids[ki] == id);
                    assert(ids.contains(id));
                    assert(first_ids(faction_ids(sn)) == ids);
                    assert forall|q: int| 0 <= q < es.len() implies (#[trigger] es[q]).0 == ids[q] && match faction_named(sn, ids[q]) {
                        Some(g) => faction_shown(es[q].1, g, *cfg, *raw, aors@),
                        None => false,
                    } by {
                        if q != ki {
                            assert(ids[q] != ids[ki]);
                            assert(es[q] == before[q]);
                        } else {
                            assert(es[q] == (id, gv));
                        }
                    }
                    assert(faction_entries_keyed(es, sn, *cfg, *raw, aors@));
                } else {
                    assert(!ids.contains(id)) by {
                        if ids.contains(id) {
                            let q = choose|q: int| 0 <= q < ids.len() && ids[q] == id;
                            assert(before[q].0 == ids[q]);
                        }
                    }
                    assert(es == before.push((id, gv)));
                    assert(first_ids(faction_ids(sn)) == ids.push(id));
                    let nids = first_ids(faction_ids(sn));
                    assert forall|q: int| 0 <= q < es.len() implies (#[trigger] es[q]).0 == nids[q] && match faction_named(sn, nids[q]) {
                        Some(g) => faction_shown(es[q].1, g, *cfg, *raw, aors@),
                        None => false,
                    } by {
                        if q < before.len() {
                            assert(es[q] == before[q]);
                            assert(nids[q] == ids[q]);
                            assert(ids[q] != id) by {
                                if ids[q] == id {
                                    assert(ids.contains(id));
                                }
                            }
                            assert(faction_named(sn, ids[q]) == faction_named(sp, ids[q]));
                        } else {
                            assert(es[q] == (id, gv));
                            assert(nids[q] == id);
                        }
                    }
                    assert(es.len() == nids.len());
                    lemma_faction_entries_keyed(es, sn, *cfg, *raw, aors@);
                }
            }
        } else {
            assert(not_excluded(next, ex) == sp);
        }
        k += 1;
    }
    assert(ordered.take(order.len() as int) =~= ordered);
    let ghost es = faction_entries(m);
    let ghost shown = not_excluded(ordered, ex);
    let out = faction_pairs(m);
    assert forall|p: int| 0 <= p < out@.len() implies faction_entry(#[trigger] out@[p], shown, first_ids(faction_ids(shown))[p], *cfg, *raw, aors@) by {
        assert(es[p].0 == first_ids(faction_ids(shown))[p]);
    }
    out
}

/// The parsed data of a campaign.
#[derive(Debug)]
pub struct RawModel {
    pub units: Vec<Unit>,
    pub factions: Vec<Faction>,
    pub regions: Vec<Region>,
    pub pools: Vec<Pool>,
    pub buildings: Vec<Building>,
    pub require_aliases: Vec<(String, Requires)>,
    pub text: Vec<(String, String)>,
    pub strat: Vec<(String, usize)>,
    pub mounts: Vec<(String, Mount)>,
    pub models: Vec<(String, Model)>,
}

/// Why the site cannot be built from the parsed data.
#[derive(Debug, PartialEq, Eq, Structural)]
pub enum BuildError {
    /// A building recruits a unit that is not among the units.
    UnknownRecruit,
    /// A unit has more attributes than its stamina can add up.
    TooManyAttributes,
    /// A requirement names an alias that is not defined, or aliases that
    /// name each other in a circle.
    InvalidAlias,
    /// A pool of mercenaries offers a unit that is not among the units.
    UnknownPoolUnit,
}

/// Whether `im` is the intermediate model of the parsed data: the units
/// keyed by id, the requirement of each unit as its ways of being recruited
/// say, the lowest level of settlement that recruits each, and the rest as
/// it was parsed.
pub open spec fn derived_from(im: IntermediateModel, raw: RawModel) -> bool {
    &&& im.unit_map@ == keyed_units(raw.units@)
    &&& im.factions == raw.factions
    &&& im.regions == raw.regions
    &&& im.pools == raw.pools
    &&& im.buildings == raw.buildings
    &&& im.require_aliases == raw.require_aliases
    &&& im.text == raw.text
    &&& im.strat == raw.strat
    &&& im.mounts == raw.mounts
    &&& im.models == raw.models
    &&& unit_reqs_view(im.requires@) == unit_requires(raw.buildings@, im.unit_map@)
    &&& levels_view(im.tech_levels@) == lowest_levels(unit_levels(buildings_view(raw.buildings@)))
}

/// Whether no unit has more attributes than a `u32` stamina can add up.
pub open spec fn attrs_fit(im: IntermediateModel) -> bool {
    forall|i: int|
        0 <= i < im.unit_map@.len() ==> (#[trigger] im.unit_map@[i]).stats.attributes@.len() <= 0x1000_0000
}

/// Why the unit of a pool's entry cannot be built, if it cannot: it is not
/// among the units, or (where there are eras to evaluate it in) its
/// requirement does not resolve.
pub open spec fn entry_failure(
    im: IntermediateModel,
    cfg: ModelConfig,
    e: crate::parse::descr_mercenaries::Unit,
) -> Option<BuildError> {
    if id_index(im.unit_map@, e.id@) < 0 {
        Some(BuildError::UnknownPoolUnit)
    } else if cfg.eras@.len() > 0 && !founded(unit_req(im.requires@, e.id@), im.require_aliases@) {
        Some(BuildError::InvalidAlias)
    } else {
        None
    }
}

/// The failure of the first entry (in order) that fails.
pub open spec fn entries_failure(
    im: IntermediateModel,
    cfg: ModelConfig,
    es: Seq<crate::parse::descr_mercenaries::Unit>,
) -> Option<BuildError>
    decreases es.len(),
{
    if es.len() == 0 {
        None
    } else {
        match entry_failure(im, cfg, es[0]) {
            Some(e) => Some(e),
            None => entries_failure(im, cfg, es.skip(1)),
        }
    }
}

/// The failure of the first pool (in order) with an entry that fails.
pub open spec fn pools_failure(im: IntermediateModel, cfg: ModelConfig, ps: Seq<Pool>) -> Option<BuildError>
    decreases ps.len(),
{
    if ps.len() == 0 {
        None
    } else {
        match entries_failure(im, cfg, ps[0].units@) {
            Some(e) => Some(e),
            None => pools_failure(im, cfg, ps.skip(1)),
        }
    }
}

proof fn lemma_entries_ok(im: IntermediateModel, cfg: ModelConfig, es: Seq<crate::parse::descr_mercenaries::Unit>)
    requires
        entries_failure(im, cfg, es) is None,
    ensures
        forall|k: int| 0 <= k < es.len() ==> entry_failure(im, cfg, #[trigger] es[k]) is None,
    decreases es.len(),
{
    if es.len() > 0 {
        lemma_entries_ok(im, cfg, es.skip(1));
        assert forall|k: int| 0 <= k < es.len() implies entry_failure(im, cfg, #[trigger] es[k]) is None by {
            if k > 0 {
                assert(es[k] == es.skip(1)[k - 1]);
            }
        }
    }
}

proof fn lemma_pools_ok(im: IntermediateModel, cfg: ModelConfig, ps: Seq<Pool>)
    requires
        pools_failure(im, cfg, ps) is None,
    ensures
        forall|i: int|
            0 <= i < ps.len() ==> pool_units_known(#[trigger] ps[i], im) && (cfg.eras@.len() > 0
                ==> pool_units_founded(ps[i], im)),
    decreases ps.len(),
{
    if ps.len() > 0 {
        lemma_pools_ok(im, cfg, ps.skip(1));
        assert forall|i: int|
            0 <= i < ps.len() implies pool_units_known(#[trigger] ps[i], im) && (cfg.eras@.len() > 0
                ==> pool_units_founded(ps[i], im)) by {
            if i > 0 {
                assert(ps[i] == ps.skip(1)[i - 1]);
            } else {
                lemma_entries_ok(im, cfg, ps[0].units@);
                assert forall|k: int| 0 <= k < ps[0].units@.len() implies id_index(
                    im.unit_map@,
                    (#[trigger] ps[0].units@[k]).id@,
                ) >= 0 by {
                    assert(entry_failure(im, cfg, ps[0].units@[k]) is None);
                }
                if cfg.eras@.len() > 0 {
                    assert forall|k: int| 0 <= k < ps[0].units@.len() implies founded(
                        unit_req(im.requires@, (#[trigger] ps[0].units@[k]).id@),
                        im.require_aliases@,
                    ) by {
                        assert(entry_failure(im, cfg, ps[0].units@[k]) is None);
                    }
                }
            }
        }
    }
}

/// What the site is built of from the intermediate model: the checks, in
/// the order in which building meets them, and where they pass, the
/// factions, regions, pools and areas of recruitment as their
/// specifications say. A requirement that does not resolve fails only
/// where it is evaluated: for a pool's unit where there are eras, for
/// every unit where there are regions (areas of recruitment) or a faction
/// to show.
pub open spec fn built_from(
    r: Result<(Vec<(String, SiteFaction)>, Vec<(String, SiteRegion)>, Vec<SitePool>, Vec<Aor>), BuildError>,
    im: IntermediateModel,
    cfg: ModelConfig,
) -> bool {
    let shown = shown_factions(im.factions@, im.strat@, cfg.exclude.deep_view());
    if !attrs_fit(im) {
        r == Err::<(Vec<(String, SiteFaction)>, Vec<(String, SiteRegion)>, Vec<SitePool>, Vec<Aor>), BuildError>(
            BuildError::TooManyAttributes,
        )
    } else if pools_failure(im, cfg, im.pools@) is Some {
        r == Err::<(Vec<(String, SiteFaction)>, Vec<(String, SiteRegion)>, Vec<SitePool>, Vec<Aor>), BuildError>(
            pools_failure(im, cfg, im.pools@).unwrap(),
        )
    } else if im.regions@.len() > 0 && !reqs_resolve(im.requires@, im.require_aliases@) {
        r == Err::<(Vec<(String, SiteFaction)>, Vec<(String, SiteRegion)>, Vec<SitePool>, Vec<Aor>), BuildError>(
            BuildError::InvalidAlias,
        )
    } else if shown.len() > 0 && !units_founded(im) {
        r == Err::<(Vec<(String, SiteFaction)>, Vec<(String, SiteRegion)>, Vec<SitePool>, Vec<Aor>), BuildError>(
            BuildError::InvalidAlias,
        )
    } else {
        r matches Ok((fs, rs, ps, aors)) && {
            &&& exists|names: Seq<Seq<char>>, areas: Seq<Seq<Seq<char>>>|
                area_units_listed(names, im) && areas_listed(areas, im) && #[trigger] aors_shown(
                    aors@,
                    names,
                    areas,
                    cfg,
                    im,
                )
            &&& regions_keyed(rs@, im.regions@)
            &&& ps@.len() == im.pools@.len()
            &&& forall|i: int|
                0 <= i < ps@.len() ==> pool_shown(#[trigger] ps@[i], im.pools@[i], i, cfg, im)
            &&& factions_keyed(fs@, shown, cfg, im, aors@)
        }
    }
}

fn check_attrs(units: &Vec<Unit>) -> (b: bool)
    ensures
        b == forall|i: int| 0 <= i < units@.len() ==> (#[trigger] units@[i]).stats.attributes@.len() <= 0x1000_0000,
{
    let mut i: usize = 0;
    while i < units.len()
        invariant
            0 <= i <= units.len(),
            forall|k: int| 0 <= k < i ==> (#[trigger] units@[k]).stats.attributes@.len() <= 0x1000_0000,
        decreases units.len() - i,
    {
        if units[i].stats.attributes.len() > 0x1000_0000 {
            return false;
        }
        i += 1;
    }
    true
}

fn check_reqs(reqs: &Vec<(String, Requires)>, al: &Vec<(String, Requires)>) -> (b: bool)
    ensures
        b == reqs_resolve(reqs@, al@),
{
    let mut i: usize = 0;
    while i < reqs.len()
        invariant
            0 <= i <= reqs.len(),
            forall|k: int| 0 <= k < i ==> resolves(#[trigger] reqs@[k].1, al@, al@.len()),
        decreases reqs.len() - i,
    {
        if !resolves_within(&reqs[i].1, al, al.len()) {
            return false;
        }
        i += 1;
    }
    true
}

fn check_entries(
    im: &IntermediateModel,
    cfg: &ModelConfig,
    es: &Vec<crate::parse::descr_mercenaries::Unit>,
) -> (r: Option<BuildError>)
    ensures
        r == entries_failure(*im, *cfg, es@),
{
    let none = Requires::False;
    let mut k: usize = 0;
    assert(es@.skip(0) =~= es@);
    while k < es.len()
        invariant
            0 <= k <= es.len(),
            none == Requires::False,
            entries_failure(*im, *cfg, es@) == entries_failure(*im, *cfg, es@.skip(k as int)),
        decreases es.len() - k,
    {
        assert(es@.skip(k as int)[0] == es@[k as int]);
        assert(es@.skip(k as int).skip(1) =~= es@.skip(k + 1));
        let e = &es[k];
        if find_unit(&im.unit_map, &e.id).is_none() {
            return Some(BuildError::UnknownPoolUnit);
        }
        if cfg.eras.len() > 0 {
            let req = unit_req_of(&im.requires, &e.id, &none);
            if !resolves_within(req, &im.require_aliases, im.require_aliases.len()) {
                return Some(BuildError::InvalidAlias);
            }
        }
        k += 1;
    }
    assert(es@.skip(es.len() as int) =~= Seq::<crate::parse::descr_mercenaries::Unit>::empty());
    None
}

fn check_pools(im: &IntermediateModel, cfg: &ModelConfig) -> (r: Option<BuildError>)
    ensures
        r == pools_failure(*im, *cfg, im.pools@),
{
    let ps = &im.pools;
    let mut i: usize = 0;
    assert(ps@.skip(0) =~= ps@);
    while i < ps.len()
        invariant
            0 <= i <= ps.len(),
            ps == &im.pools,
            pools_failure(*im, *cfg, ps@) == pools_failure(*im, *cfg, ps@.skip(i as int)),
        decreases ps.len() - i,
    {
        assert(ps@.skip(i as int)[0] == ps@[i as int]);
        assert(ps@.skip(i as int).skip(1) =~= ps@.skip(i + 1));
        match check_entries(im, cfg, &ps[i].units) {
            Some(e) => {
                return Some(e);
            },
            None => {},
        }
        i += 1;
    }
    assert(ps@.skip(ps.len() as int) =~= Seq::<Pool>::empty());
    None
}

fn check_units(im: &IntermediateModel) -> (b: bool)
    ensures
        b == units_founded(*im),
{
    let none = Requires::False;
    let mut i: usize = 0;
    while i < im.unit_map.len()
        invariant
            0 <= i <= im.unit_map.len(),
            none == Requires::False,
            forall|k: int|
                0 <= k < i ==> founded(
                    unit_req(im.requires@, (#[trigger] im.unit_map@[k]).id@),
                    im.require_aliases@,
                ),
        decreases im.unit_map.len() - i,
    {
        let req = unit_req_of(&im.requires, &im.unit_map[i].id, &none);
        if !resolves_within(req, &im.require_aliases, im.require_aliases.len()) {
            return false;
        }
        i += 1;
    }
    true
}

/// How many factions the site shows.
fn shown_count(cfg: &ModelConfig, im: &IntermediateModel) -> (n: usize)
    ensures
        n == shown_factions(im.factions@, im.strat@, cfg.exclude.deep_view()).len(),
{
    let order = strat_indices(&im.factions, &im.strat);
    let ghost ordered = strat_order(im.factions@, im.strat@);
    let ghost ex = cfg.exclude.deep_view();
    let mut n: usize = 0;
    let mut k: usize = 0;
    assert(ordered.take(0) =~= Seq::<Faction>::empty());
    while k < order.len()
        invariant
            0 <= k <= order.len(),
            n <= k,
            ex == cfg.exclude.deep_view(),
            ordered == strat_order(im.factions@, im.strat@),
            order@.len() == ordered.len(),
            forall|m: int| 0 <= m < order@.len() ==> order@[m] < im.factions@.len() && im.factions@[#[trigger] order@[m] as int] == ordered[m],
            n == not_excluded(ordered.take(k as int), ex).len(),
        decreases order.len() - k,
    {
        assert(ordered.take(k + 1).drop_last() =~= ordered.take(k as int));
        assert(ordered.take(k + 1).last() == ordered[k as int]);
        assert(im.factions@[order@[k as int] as int] == ordered[k as int]);
        let f = &im.factions[order[k]];
        let excluded = holds_name(&cfg.exclude, &f.id);
        assert(excluded == ex.contains(f.id@)) by {
            if excluded {
                let j = choose|j: int| 0 <= j < cfg.exclude@.len() && (#[trigger] cfg.exclude@[j])@ == f.id@;
                assert(ex[j] == f.id@);
            }
            if ex.contains(f.id@) {
                let j = choose|j: int| 0 <= j < ex.len() && ex[j] == f.id@;
                assert(cfg.exclude@[j]@ == f.id@);
            }
        }
        if !excluded {
            n += 1;
        }
        k += 1;
    }
    assert(ordered.take(order.len() as int) =~= ordered);
    n
}

/// The site of a campaign from its parsed data: its factions with their
/// rosters (keyed by id), its regions (keyed by id), its pools of
/// mercenaries and its areas of recruitment.
pub fn build_model(cfg: &ModelConfig, raw: RawModel) -> (r: Result<
    (Vec<(String, SiteFaction)>, Vec<(String, SiteRegion)>, Vec<SitePool>, Vec<Aor>),
    BuildError,
>)
    ensures
        !recruits_known(raw.buildings@, keyed_units(raw.units@)) ==> r == Err::<
            (Vec<(String, SiteFaction)>, Vec<(String, SiteRegion)>, Vec<SitePool>, Vec<Aor>),
            BuildError,
        >(BuildError::UnknownRecruit),
        recruits_known(raw.buildings@, keyed_units(raw.units@)) ==> exists|im: IntermediateModel|
            derived_from(im, raw) && #[trigger] built_from(r, im, *cfg),
{
    let ghost raw0 = raw;
    let unit_map = unit_map(raw.units);
    if !recruits_known_in(&raw.buildings, &unit_map) {
        return Err(BuildError::UnknownRecruit);
    }
    let reqs = build_requires(&raw.buildings, &unit_map);
    let tech_levels = build_tech_levels(&raw.buildings);
    let im = IntermediateModel {
        unit_map,
        factions: raw.factions,
        regions: raw.regions,
        pools: raw.pools,
        buildings: raw.buildings,
        require_aliases: raw.require_aliases,
        text: raw.text,
        strat: raw.strat,
        mounts: raw.mounts,
        models: raw.models,
        requires: reqs,
        tech_levels,
    };
    assert(derived_from(im, raw0));
    if !check_attrs(&im.unit_map) {
        let r = Err(BuildError::TooManyAttributes);
        assert(built_from(r, im, *cfg));
        return r;
    }
    match check_pools(&im, cfg) {
        Some(e) => {
            let r = Err(e);
            assert(built_from(r, im, *cfg));
            return r;
        },
        None => {},
    }
    if im.regions.len() > 0 && !check_reqs(&im.requires, &im.require_aliases) {
        let r = Err(BuildError::InvalidAlias);
        assert(built_from(r, im, *cfg));
        return r;
    }
    let shown = shown_count(cfg, &im) > 0;
    if shown && !check_units(&im) {
        let r = Err(BuildError::InvalidAlias);
        assert(built_from(r, im, *cfg));
        return r;
    }
    proof {
        lemma_pools_ok(im, *cfg, im.pools@);
    }
    let regions = keyed_regions(&im.regions);
    let mut pools: Vec<SitePool> = Vec::new();
    let mut i: usize = 0;
    while i < im.pools.len()
        invariant
            0 <= i <= im.pools.len(),
            attrs_fit(im),
            forall|j: int|
                0 <= j < im.pools@.len() ==> pool_units_known(#[trigger] im.pools@[j], im) && (cfg.eras@.len() > 0
                    ==> pool_units_founded(im.pools@[j], im)),
            pools@.len() == i,
            forall|k: int| 0 <= k < i ==> pool_shown(#[trigger] pools@[k], im.pools@[k], k, *cfg, im),
        decreases im.pools.len() - i,
    {
        assert(pool_units_known(im.pools@[i as int], im));
        let p = build_pool(&im.pools[i], i, cfg, &im);
        pools.push(p);
        i += 1;
    }
    let aors = calculate_aors(cfg, &im);
    let factions = if shown {
        keyed_factions(cfg, &im, &aors)
    } else {
        let v: Vec<(String, SiteFaction)> = Vec::new();
        proof {
            let sf = shown_factions(im.factions@, im.strat@, cfg.exclude.deep_view());
            assert(sf =~= Seq::<Faction>::empty());
            assert(faction_ids(sf) =~= Seq::<Seq<char>>::empty());
        }
        v
    };
    let r = Ok((factions, regions, pools, aors));
    assert(built_from(r, im, *cfg));
    r
}

proof fn lemma_roster_units(us: Seq<Unit>, raw: IntermediateModel, f: Faction)
    ensures
        forall|k: int|
            0 <= k < roster_units(us, raw, f).len() ==> !has_attr(
                (#[trigger] roster_units(us, raw, f)[k]).stats.attributes@,
                Attr::MercenaryUnit,
            ) && recruits(raw, f, roster_units(us, raw, f)[k]),
    decreases us.len(),
{
    if us.len() > 0 {
        lemma_roster_units(us.drop_last(), raw, f);
        let p = roster_units(us.drop_last(), raw, f);
        let t = roster_units(us, raw, f);
        assert forall|k: int| 0 <= k < t.len() implies !has_attr(
            (#[trigger] t[k]).stats.attributes@,
            Attr::MercenaryUnit,
        ) && recruits(raw, f, t[k]) by {
            if k < p.len() {
                assert(t[k] == p[k]);
            }
        }
    }
}

/// A faction's roster shows no mercenary, and only units that the faction
/// may recruit.
pub proof fn law_roster_without_mercenaries(
    out: SiteFaction,
    f: Faction,
    cfg: ModelConfig,
    raw: IntermediateModel,
    aors: Seq<Aor>,
)
    requires
        faction_shown(out, f, cfg, raw, aors),
    ensures
        forall|k: int| 0 <= k < out.roster@.len() ==> !(#[trigger] out.roster@[k]).traits.mercenary,
        forall|k: int|
            0 <= k < out.roster@.len() ==> exists|i: int|
                0 <= i < raw.unit_map@.len() && (#[trigger] out.roster@[k]).id@ == raw.unit_map@[i].id@
                    && recruits(raw, f, raw.unit_map@[i]),
{
    let kept = roster_units(raw.unit_map@, raw, f);
    lemma_roster_units(raw.unit_map@, raw, f);
    lemma_roster_in(raw.unit_map@, raw, f);
    assert forall|k: int| 0 <= k < out.roster@.len() implies !(#[trigger] out.roster@[k]).traits.mercenary by {
        assert(unit_shown(out.roster@[k], kept[k], cfg, f.id@, raw, aors));
    }
    assert forall|k: int| 0 <= k < out.roster@.len() implies exists|i: int|
        0 <= i < raw.unit_map@.len() && (#[trigger] out.roster@[k]).id@ == raw.unit_map@[i].id@
            && recruits(raw, f, raw.unit_map@[i]) by {
        assert(unit_shown(out.roster@[k], kept[k], cfg, f.id@, raw, aors));
        let i = choose|i: int| 0 <= i < raw.unit_map@.len() && raw.unit_map@[i] == kept[k];
        assert(recruits(raw, f, kept[k]));
    }
}

proof fn lemma_roster_in(us: Seq<Unit>, raw: IntermediateModel, f: Faction)
    ensures
        forall|k: int|
            0 <= k < roster_units(us, raw, f).len() ==> exists|i: int|
                0 <= i < us.len() && us[i] == #[trigger] roster_units(us, raw, f)[k],
    decreases us.len(),
{
    if us.len() > 0 {
        lemma_roster_in(us.drop_last(), raw, f);
        let q = us.drop_last();
        let p = roster_units(q, raw, f);
        let t = roster_units(us, raw, f);
        assert forall|k: int| 0 <= k < t.len() implies exists|i: int| 0 <= i < us.len() && us[i] == #[trigger] t[k] by {
            if k < p.len() {
                assert(t[k] == p[k]);
                let i = choose|i: int| 0 <= i < q.len() && q[i] == #[trigger] p[k];
                assert(us[i] == q[i]);
            } else {
                assert(t[k] == us[us.len() - 1]);
            }
        }
    }
}

/// Every area of recruitment holds its own region, and only regions of the
/// map.
pub proof fn law_areas_on_map(areas: Seq<Seq<Seq<char>>>, raw: IntermediateModel)
    requires
        areas_listed(areas, raw),
    ensures
        forall|i: int| 0 <= i < areas.len() ==> (#[trigger] areas[i]).len() > 0,
        forall|i: int, x: Seq<char>|
            0 <= i < areas.len() && #[trigger] areas[i].contains(x) ==> on_map(raw, x),
{
    reveal(held_in);
    assert forall|i: int| 0 <= i < areas.len() implies (#[trigger] areas[i]).len() > 0 by {
        let a = areas[i];
        assert(areas.contains(a));
        let j = choose|j: int|
            0 <= j < raw.regions@.len() && covered(raw, (#[trigger] raw.regions@[j]).id@) && a.to_set()
                == area_of(raw, raw.regions@[j].id@);
        let id = raw.regions@[j].id@;
        assert(area_of(raw, id).contains(id));
        assert(a.to_set().contains(id));
    }
    assert forall|i: int, x: Seq<char>|
        0 <= i < areas.len() && #[trigger] areas[i].contains(x) implies on_map(raw, x) by {
        let a = areas[i];
        assert(areas.contains(a));
        let j = choose|j: int|
            0 <= j < raw.regions@.len() && covered(raw, (#[trigger] raw.regions@[j]).id@) && a.to_set()
                == area_of(raw, raw.regions@[j].id@);
        let id = raw.regions@[j].id@;
        assert(a.to_set().contains(x));
        let k = choose|k: int|
            0 <= k < raw.requires@.len() && bounds_area(raw, k) && held_in(
                raw,
                (#[trigger] raw.requires@[k]).1,
            ).contains(id);
        assert(held_in(raw, raw.requires@[k].1).contains(x));
    }
}

proof fn lemma_area_units_sub(raw: IntermediateModel, names: Seq<Seq<char>>, area: Seq<Seq<char>>, f: Faction)
    ensures
        forall|x: Seq<char>| #[trigger] area_units(raw, names, area, f).contains(x) ==> names.contains(x),
    decreases names.len(),
{
    if names.len() > 0 {
        lemma_area_units_sub(raw, names.drop_last(), area, f);
        let p = area_units(raw, names.drop_last(), area, f);
        assert forall|x: Seq<char>| #[trigger] area_units(raw, names, area, f).contains(x) implies names.contains(x) by {
            if p.contains(x) {
                let i = choose|i: int| 0 <= i < names.drop_last().len() && names.drop_last()[i] == x;
                assert(names[i] == x);
            } else {
                assert(names[names.len() - 1] == x);
            }
        }
    }
}

proof fn lemma_slots_sub(raw: IntermediateModel, names: Seq<Seq<char>>, i: int, area: Seq<Seq<char>>, fs: Seq<Faction>)
    ensures
        forall|j: int, x: Seq<char>|
            0 <= j < faction_slots(raw, names, i, area, fs).len() && #[trigger] faction_slots(raw, names, i, area, fs)[j].2.contains(x)
                ==> names.contains(x),
    decreases fs.len(),
{
    if fs.len() > 0 {
        lemma_slots_sub(raw, names, i, area, fs.drop_last());
        lemma_area_units_sub(raw, names, area, fs.last());
        let p = faction_slots(raw, names, i, area, fs.drop_last());
        let t = faction_slots(raw, names, i, area, fs);
        assert forall|j: int, x: Seq<char>| 0 <= j < t.len() && #[trigger] t[j].2.contains(x) implies names.contains(x) by {
            if j < p.len() {
                assert(t[j] == p[j]);
            }
        }
    }
}

proof fn lemma_aor_slots_sub(raw: IntermediateModel, names: Seq<Seq<char>>, areas: Seq<Seq<Seq<char>>>)
    ensures
        forall|j: int, x: Seq<char>|
            0 <= j < aor_slots(raw, names, areas).len() && #[trigger] aor_slots(raw, names, areas)[j].2.contains(x)
                ==> names.contains(x),
    decreases areas.len(),
{
    if areas.len() > 0 {
        lemma_aor_slots_sub(raw, names, areas.drop_last());
        lemma_slots_sub(raw, names, areas.len() - 1, areas.last(), raw.factions@);
        let p = aor_slots(raw, names, areas.drop_last());
        let q = faction_slots(raw, names, areas.len() - 1, areas.last(), raw.factions@);
        assert forall|j: int, x: Seq<char>| 0 <= j < (p + q).len() && #[trigger] (p + q)[j].2.contains(x) implies names.contains(x) by {
            if j < p.len() {
                assert((p + q)[j] == p[j]);
            } else {
                assert((p + q)[j] == q[j - p.len()]);
            }
        }
    }
}

/// The units of an area of recruitment are units whose requirement holds
/// in some regions of the map and not in others.
pub proof fn law_aor_units_bound_areas(
    out: Seq<Aor>,
    names: Seq<Seq<char>>,
    areas: Seq<Seq<Seq<char>>>,
    cfg: ModelConfig,
    raw: IntermediateModel,
)
    requires
        area_units_listed(names, raw),
        aors_shown(out, names, areas, cfg, raw),
    ensures
        forall|j: int, x: Seq<char>|
            0 <= j < out.len() && #[trigger] out[j].units.deep_view().contains(x) ==> is_area_unit(raw, x),
{
    lemma_aor_slots_sub(raw, names, areas);
    let slots = aor_slots(raw, names, areas);
    assert forall|j: int, x: Seq<char>|
        0 <= j < out.len() && #[trigger] out[j].units.deep_view().contains(x) implies is_area_unit(raw, x) by {
        assert(aor_shown(out[j], slots[j], areas, cfg));
        assert(slots[j].2.contains(x));
        assert(names.contains(x));
    }
}

/// The regions and the factions of the site are keyed by id: no id comes
/// twice.
pub proof fn law_keys_distinct(
    rs: Seq<(String, SiteRegion)>,
    regions: Seq<Region>,
    fs: Seq<(String, SiteFaction)>,
    factions: Seq<Faction>,
    cfg: ModelConfig,
    raw: IntermediateModel,
    aors: Seq<Aor>,
)
    requires
        regions_keyed(rs, regions),
        factions_keyed(fs, factions, cfg, raw, aors),
    ensures
        forall|p: int, q: int| 0 <= p < q < rs.len() ==> (#[trigger] rs[p]).0@ != (#[trigger] rs[q]).0@,
        forall|p: int, q: int| 0 <= p < q < fs.len() ==> (#[trigger] fs[p]).0@ != (#[trigger] fs[q]).0@,
{
    lemma_first_ids(region_ids(regions));
    lemma_first_ids(faction_ids(factions));
    let ri = first_ids(region_ids(regions));
    let fi = first_ids(faction_ids(factions));
    assert forall|p: int, q: int| 0 <= p < q < rs.len() implies (#[trigger] rs[p]).0@ != (#[trigger] rs[q]).0@ by {
        assert(region_entry(rs[p], regions, ri[p]));
        assert(region_entry(rs[q], regions, ri[q]));
    }
    assert forall|p: int, q: int| 0 <= p < q < fs.len() implies (#[trigger] fs[p]).0@ != (#[trigger] fs[q]).0@ by {
        assert(faction_entry(fs[p], factions, fi[p], cfg, raw, aors));
        assert(faction_entry(fs[q], factions, fi[q], cfg, raw, aors));
    }
}

/// An era of a module: its id, its icons (on and off) and its name.
#[derive(Debug)]
pub struct Era {
    pub id: String,
    pub icon: String,
    pub icoff: String,
    pub name: String,
}

/// An era as the manifest gives it: its id and what it says of the icons
/// and the name.
#[derive(Debug)]
pub struct EraEntry {
    pub id: String,
    pub icon: Option<String>,
    pub icoff: Option<String>,
    pub name: Option<String>,
}

/// A module of the site: a mod with its id, name and banner, its factions,
/// regions, pools and areas of recruitment, its aliases of factions and its
/// eras.
#[derive(Debug)]
pub struct Module {
    pub id: String,
    pub name: String,
    pub banner: String,
    pub factions: Vec<(String, SiteFaction)>,
    pub regions: Vec<(String, SiteRegion)>,
    pub pools: Vec<SitePool>,
    pub aors: Vec<Aor>,
    pub aliases: Vec<(String, String)>,
    pub eras: Vec<(String, Era)>,
}

/// The icon of an era: the one given, else `eras/{id}.png`.
pub open spec fn era_icon_of(id: Seq<char>, icon: Option<String>) -> Seq<char> {
    match icon {
        Some(p) => p@,
        None => "eras/"@ + id + ".png"@,
    }
}

/// The icon of an era when off: the one given, else `eras/{id}-off.png`.
pub open spec fn era_icoff_of(id: Seq<char>, icoff: Option<String>) -> Seq<char> {
    match icoff {
        Some(p) => p@,
        None => "eras/"@ + id + "-off.png"@,
    }
}

/// The name of an era: the one given, else its id.
pub open spec fn era_name_of(id: Seq<char>, name: Option<String>) -> Seq<char> {
    match name {
        Some(n) => n@,
        None => id,
    }
}

/// Whether `e` is the era `id` with what the manifest gives.
pub open spec fn era_shown(e: Era, id: Seq<char>, icon: Option<String>, icoff: Option<String>, name: Option<String>) -> bool {
    &&& e.id@ == id
    &&& e.icon@ == era_icon_of(id, icon)
    &&& e.icoff@ == era_icoff_of(id, icoff)
    &&& e.name@ == era_name_of(id, name)
}

/// An era with the icons and the name that the manifest gives, else those
/// named after its id.
pub fn era_of(id: &str, icon: Option<String>, icoff: Option<String>, name: Option<String>) -> (e: Era)
    ensures
        era_shown(e, id@, icon, icoff, name),
{
    let icon = match icon {
        Some(p) => p,
        None => {
            let mut v = chars_of("eras/");
            append_str(&mut v, id);
            append_str(&mut v, ".png");
            string_of(&v)
        },
    };
    let icoff = match icoff {
        Some(p) => p,
        None => {
            let mut v = chars_of("eras/");
            append_str(&mut v, id);
            append_str(&mut v, "-off.png");
            string_of(&v)
        },
    };
    let name = match name {
        Some(n) => n,
        None => trimless(id),
    };
    Era { id: trimless(id), icon, icoff, name }
}

/// A `String` holding the text.
fn trimless(s: &str) -> (r: String)
    ensures
        r@ == s@,
{
    let v = chars_of(s);
    string_of(&v)
}

/// A module of the site from the manifest's id, name, banner, eras and
/// aliases, and the built model.
pub fn build_module(
    id: String,
    name: String,
    banner: String,
    eras: Vec<EraEntry>,
    aliases: Vec<(String, String)>,
    model: (Vec<(String, SiteFaction)>, Vec<(String, SiteRegion)>, Vec<SitePool>, Vec<Aor>),
) -> (m: Module)
    ensures
        m.id@ == id@,
        m.name@ == name@,
        m.banner@ == banner@,
        m.aliases == aliases,
        m.factions == model.0,
        m.regions == model.1,
        m.pools == model.2,
        m.aors == model.3,
        m.eras@.len() == eras@.len(),
        forall|i: int|
            0 <= i < eras@.len() ==> (#[trigger] m.eras@[i]).0@ == eras@[i].id@ && era_shown(
                m.eras@[i].1,
                eras@[i].id@,
                eras@[i].icon,
                eras@[i].icoff,
                eras@[i].name,
            ),
{
    let ghost given = eras@;
    let n = eras.len();
    let mut out: Vec<(String, Era)> = Vec::new();
    let mut rest = eras;
    let mut i: usize = 0;
    assert(given.skip(0) =~= given);
    while rest.len() > 0
        invariant
            rest@.len() + i == given.len(),
            given.len() == n,
            rest@ == given.skip(i as int),
            out@.len() == i,
            forall|k: int|
                0 <= k < i ==> (#[trigger] out@[k]).0@ == given[k].id@ && era_shown(
                    out@[k].1,
                    given[k].id@,
                    given[k].icon,
                    given[k].icoff,
                    given[k].name,
                ),
        decreases rest.len(),
    {
        let ghost before = rest@;
        let e = rest.remove(0);
        assert(e == given[i as int]);
        assert(rest@ =~= given.skip(i + 1));
        let era = era_of(e.id.as_str(), e.icon, e.icoff, e.name);
        out.push((e.id, era));
        i += 1;
    }
    Module {
        id,
        name,
        banner,
        factions: model.0,
        regions: model.1,
        pools: model.2,
        aors: model.3,
        aliases,
        eras: out,
    }
}

} // verus!
