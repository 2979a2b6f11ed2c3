//! What the site's catalog shows of units: their class, abilities, mounts
//! and weapons, as decided from what the data files say of them.
use vstd::prelude::*;

use crate::chars::{contains_str, has_substring};
use crate::numbers::{f64_above_one, f64_above_one_chars};
use crate::parse::descr_mount::{Mount, MountClass};
use crate::parse::export_descr_unit::{Attr, Unit, Weapon, WeaponAttr};
use crate::parse::model::has_attr;

verus! {

/// The class of a unit in the catalog.
#[derive(Debug, Clone, Copy, PartialEq, Eq, Structural)]
pub enum UnitClass {
    General,
    Animal,
    Cavalry,
    Artillery,
    Ship,
    Missile,
    Spear,
    Sword,
}

/// A special ability of a unit.
#[derive(Debug, Clone, Copy, PartialEq, Eq, Structural)]
pub enum Ability {
    CanRunAmok,
    CantabrianCircle,
    Command,
    Chant,
    Warcry,
    PowerCharge,
    Knight,
    FormedCharge,
    Stakes,
    CantHide,
    HideAnywhere,
    HideImprovedForest,
    HideLongGrass,
    FrightenAll,
    FrightenFoot,
    FrightenMounted,
}

/// What a unit rides.
#[derive(Debug, Clone, Copy, PartialEq, Eq, Structural)]
pub enum MountType {
    Foot,
    Horse,
    Camel,
    Elephant,
    Chariot,
    Other,
}

/// The kind of a weapon.
#[derive(Debug, Clone, Copy, PartialEq, Eq, Structural)]
pub enum WeaponType {
    Melee,
    Gunpowder,
    Missile,
    Spear,
    Thrown,
}

/// A weapon as the catalog shows it. Its lethality is the text of the data
/// file's value, or `1` where that value is above 1.
#[derive(Debug)]
pub struct WeaponInfo {
    pub class: WeaponType,
    pub factor: u32,
    pub is_missile: bool,
    pub charge: u32,
    pub range: u32,
    pub ammo: u32,
    pub lethality: String,
    pub armor_piercing: bool,
    pub body_piercing: bool,
    pub pre_charge: bool,
    pub launching: bool,
    pub area: bool,
    pub fire: bool,
    pub spear_bonus: u32,
}

/// Whether a weapon has the attribute `a`.
pub open spec fn has_weapon_attr(attrs: Seq<WeaponAttr>, a: WeaponAttr) -> bool {
    exists|i: int| 0 <= i < attrs.len() && #[trigger] attrs[i] == a
}

/// The kind of a weapon: that of its last attribute that makes it a spear
/// or a thrown weapon, else `init`.
pub open spec fn weapon_class(init: WeaponType, attrs: Seq<WeaponAttr>) -> WeaponType
    decreases attrs.len(),
{
    if attrs.len() == 0 {
        init
    } else {
        match attrs.last() {
            WeaponAttr::Spear | WeaponAttr::LongPike | WeaponAttr::ShortPike
            | WeaponAttr::LightSpear => WeaponType::Spear,
            WeaponAttr::Thrown => WeaponType::Thrown,
            _ => weapon_class(init, attrs.drop_last()),
        }
    }
}

/// The bonus of a weapon's last spear bonus, or 0.
pub open spec fn spear_bonus_of(attrs: Seq<WeaponAttr>) -> u32
    decreases attrs.len(),
{
    if attrs.len() == 0 {
        0
    } else {
        match attrs.last() {
            WeaponAttr::SpearBonus(n) => n,
            _ => spear_bonus_of(attrs.drop_last()),
        }
    }
}

/// A weapon's lethality as the catalog shows it: at most 1, so `1` where
/// the value reads as a double above 1.
pub open spec fn lethality_shown(l: Seq<char>) -> Seq<char> {
    if f64_above_one(l) {
        "1"@
    } else {
        l
    }
}

/// A weapon as the catalog shows it: none where its type is `no`; a melee
/// weapon where it has no missile, a gunpowder one where its tech type
/// names gunpowder, else a missile one, unless its attributes make it a
/// spear or a thrown weapon.
pub open spec fn weapon_info_ok(w: Weapon, r: Option<WeaponInfo>) -> bool {
    if w.weapon_type@ == "no"@ {
        r is None
    } else {
        r matches Some(i) && {
            let init = if w.missile@ == "no"@ {
                WeaponType::Melee
            } else if has_substring(w.tech_type@, "gunpowder"@) {
                WeaponType::Gunpowder
            } else {
                WeaponType::Missile
            };
            let attrs = w.attributes@;
            &&& i.class == weapon_class(init, attrs)
            &&& i.factor == w.factor
            &&& i.is_missile == (w.missile@ != "no"@)
            &&& i.charge == w.charge
            &&& i.range == w.range
            &&& i.ammo == w.ammo
            &&& i.lethality@ == lethality_shown(w.lethality@)
            &&& i.armor_piercing == has_weapon_attr(attrs, WeaponAttr::ArmorPiercing)
            &&& i.body_piercing == has_weapon_attr(attrs, WeaponAttr::BodyPiercing)
            &&& i.pre_charge == has_weapon_attr(attrs, WeaponAttr::Precharge)
            &&& i.launching == has_weapon_attr(attrs, WeaponAttr::Launching)
            &&& i.area == has_weapon_attr(attrs, WeaponAttr::Area)
            &&& i.fire == has_weapon_attr(attrs, WeaponAttr::Fire)
            &&& i.spear_bonus == spear_bonus_of(attrs)
        }
    }
}

/// A weapon as the catalog shows it.
pub fn build_weapon(weapon: &Weapon) -> (r: Option<WeaponInfo>)
    ensures
        weapon_info_ok(*weapon, r),
{
    let wt = crate::chars::chars_of(weapon.weapon_type.as_str());
    if crate::chars::eq_str(&wt, "no") {
        return None;
    }
    let missile = crate::chars::chars_of(weapon.missile.as_str());
    let tech = crate::chars::chars_of(weapon.tech_type.as_str());
    let no_missile = crate::chars::eq_str(&missile, "no");
    let init = if no_missile {
        WeaponType::Melee
    } else if contains_str(&tech, "gunpowder") {
        WeaponType::Gunpowder
    } else {
        WeaponType::Missile
    };
    let attrs = &weapon.attributes;
    let mut class = init;
    let mut armor_piercing = false;
    let mut body_piercing = false;
    let mut pre_charge = false;
    let mut launching = false;
    let mut area = false;
    let mut fire = false;
    let mut spear_bonus: u32 = 0;
    let mut i: usize = 0;
    assert(attrs@.take(0) =~= Seq::<WeaponAttr>::empty());
    while i < attrs.len()
        invariant
            0 <= i <= attrs.len(),
            attrs == &weapon.attributes,
            class == weapon_class(init, attrs@.take(i as int)),
            spear_bonus == spear_bonus_of(attrs@.take(i as int)),
            armor_piercing == has_weapon_attr(attrs@.take(i as int), WeaponAttr::ArmorPiercing),
            body_piercing == has_weapon_attr(attrs@.take(i as int), WeaponAttr::BodyPiercing),
            pre_charge == has_weapon_attr(attrs@.take(i as int), WeaponAttr::Precharge),
            launching == has_weapon_attr(attrs@.take(i as int), WeaponAttr::Launching),
            area == has_weapon_attr(attrs@.take(i as int), WeaponAttr::Area),
            fire == has_weapon_attr(attrs@.take(i as int), WeaponAttr::Fire),
        decreases attrs.len() - i,
    {
        let ghost pre = attrs@.take(i as int);
        let ghost next = attrs@.take(i + 1);
        assert(next.drop_last() =~= pre);
        assert(next.last() == attrs@[i as int]);
        assert forall|a: WeaponAttr| #[trigger] has_weapon_attr(next, a) == (has_weapon_attr(pre, a)
            || attrs@[i as int] == a) by {
            if has_weapon_attr(next, a) && !has_weapon_attr(pre, a) {
                let j = choose|j: int| 0 <= j < next.len() && #[trigger] next[j] == a;
                if j < i {
                    assert(pre[j] == a);
                }
            }
            if has_weapon_attr(pre, a) {
                let j = choose|j: int| 0 <= j < pre.len() && #[trigger] pre[j] == a;
                assert(next[j] == a);
            }
            if attrs@[i as int] == a {
                assert(next[i as int] == a);
            }
        }
        match attrs[i] {
            WeaponAttr::ArmorPiercing => armor_piercing = true,
            WeaponAttr::BodyPiercing => body_piercing = true,
            WeaponAttr::Spear | WeaponAttr::LongPike | WeaponAttr::ShortPike
            | WeaponAttr::LightSpear => class = WeaponType::Spear,
            WeaponAttr::Precharge => pre_charge = true,
            WeaponAttr::Thrown => class = WeaponType::Thrown,
            WeaponAttr::Launching => launching = true,
            WeaponAttr::Area => area = true,
            WeaponAttr::SpearBonus(n) => spear_bonus = n,
            WeaponAttr::Fire => fire = true,
            _ => {},
        }
        i += 1;
    }
    assert(attrs@.take(attrs.len() as int) =~= attrs@);
    let leth = crate::chars::chars_of(weapon.lethality.as_str());
    let lethality = if f64_above_one_chars(&leth) {
        crate::chars::string_of(&crate::chars::chars_of("1"))
    } else {
        weapon.lethality.clone()
    };
    Some(
        WeaponInfo {
            class,
            factor: weapon.factor,
            is_missile: !no_missile,
            charge: weapon.charge,
            range: weapon.range,
            ammo: weapon.ammo,
            lethality,
            armor_piercing,
            body_piercing,
            pre_charge,
            launching,
            area,
            fire,
            spear_bonus,
        },
    )
}

/// The mount that a key names: that of its last entry.
pub open spec fn mount_lookup(ms: Seq<(String, Mount)>, key: Seq<char>) -> Option<Mount>
    decreases ms.len(),
{
    if ms.len() == 0 {
        None
    } else if ms.last().0@ == key {
        Some(ms.last().1)
    } else {
        mount_lookup(ms.drop_last(), key)
    }
}

/// The mount that a unit rides, where it names one that the mounts have.
pub open spec fn unit_mount(u: Unit, ms: Seq<(String, Mount)>) -> Option<Mount> {
    match u.stats.mount {
        None => None,
        Some(m) => mount_lookup(ms, m@),
    }
}

/// The mount that a unit rides.
pub fn get_mount<'a>(unit: &Unit, mounts: &'a Vec<(String, Mount)>) -> (r: Option<&'a Mount>)
    ensures
        match (r, unit_mount(*unit, mounts@)) {
            (Some(a), Some(b)) => *a == b,
            (None, None) => true,
            _ => false,
        },
{
    let key = match &unit.stats.mount {
        None => {
            return None;
        },
        Some(k) => k,
    };
    let mut j = mounts.len();
    assert(mounts@.take(j as int) =~= mounts@);
    while j > 0
        invariant
            j <= mounts.len(),
            unit.stats.mount == Some(*key),
            mount_lookup(mounts@, key@) == mount_lookup(mounts@.take(j as int), key@),
        decreases j,
    {
        let ghost pre = mounts@.take(j as int);
        assert(pre.drop_last() =~= mounts@.take(j - 1));
        assert(pre.last() == mounts@[j - 1]);
        if mounts[j - 1].0 == *key {
            return Some(&mounts[j - 1].1);
        }
        j -= 1;
    }
    assert(mounts@.take(0) =~= Seq::<(String, Mount)>::empty());
    None
}

/// Whether a unit rides a chariot.
pub fn is_chariot(unit: &Unit, mounts: &Vec<(String, Mount)>) -> (b: bool)
    ensures
        b == (unit_mount(*unit, mounts@) matches Some(m) && m.class == MountClass::Chariot),
{
    match get_mount(unit, mounts) {
        Some(m) => m.class == MountClass::Chariot,
        None => false,
    }
}

/// Whether a unit rides an elephant.
pub fn is_elephant(unit: &Unit, mounts: &Vec<(String, Mount)>) -> (b: bool)
    ensures
        b == (unit_mount(*unit, mounts@) matches Some(m) && m.class == MountClass::Elephant),
{
    match get_mount(unit, mounts) {
        Some(m) => m.class == MountClass::Elephant,
        None => false,
    }
}

/// What a mount's class makes a unit ride.
pub open spec fn mount_type_of(m: Option<Mount>) -> MountType {
    match m {
        None => MountType::Foot,
        Some(m) => match m.class {
            MountClass::Horse => MountType::Horse,
            MountClass::Camel => MountType::Camel,
            MountClass::Elephant => MountType::Elephant,
            MountClass::Chariot => MountType::Chariot,
            _ => MountType::Other,
        },
    }
}

/// What a unit rides: on foot where it names no mount that the mounts have.
pub fn mount_type(unit: &Unit, mounts: &Vec<(String, Mount)>) -> (t: MountType)
    ensures
        t == mount_type_of(unit_mount(*unit, mounts@)),
{
    match get_mount(unit, mounts) {
        None => MountType::Foot,
        Some(m) => if m.class == MountClass::Horse {
            MountType::Horse
        } else if m.class == MountClass::Camel {
            MountType::Camel
        } else if m.class == MountClass::Elephant {
            MountType::Elephant
        } else if m.class == MountClass::Chariot {
            MountType::Chariot
        } else {
            MountType::Other
        },
    }
}

/// The ability that an attribute gives, if any.
pub open spec fn ability_of(a: Attr) -> Option<Ability> {
    match a {
        Attr::CanRunAmok => Some(Ability::CanRunAmok),
        Attr::CantabrianCircle => Some(Ability::CantabrianCircle),
        Attr::Command => Some(Ability::Command),
        Attr::Druid | Attr::ScreechingWomen => Some(Ability::Chant),
        Attr::Warcry => Some(Ability::Warcry),
        Attr::PowerCharge => Some(Ability::PowerCharge),
        Attr::Knight => Some(Ability::Knight),
        Attr::FormedCharge => Some(Ability::FormedCharge),
        Attr::Stakes => Some(Ability::Stakes),
        _ => None,
    }
}

/// The abilities that a unit's attributes give, in their order.
pub open spec fn attr_abilities(attrs: Seq<Attr>) -> Seq<Ability>
    decreases attrs.len(),
{
    if attrs.len() == 0 {
        seq![]
    } else {
        let p = attr_abilities(attrs.drop_last());
        match ability_of(attrs.last()) {
            Some(a) => p.push(a),
            None => p,
        }
    }
}

/// How many times a unit has the attribute `a`.
pub open spec fn count_attr(attrs: Seq<Attr>, a: Attr) -> nat
    decreases attrs.len(),
{
    if attrs.len() == 0 {
        0
    } else {
        count_attr(attrs.drop_last(), a) + if attrs.last() == a {
            1nat
        } else {
            0nat
        }
    }
}

/// A unit's stamina: 2 for each `hardy`, 4 for each `very_hardy` and 8 for
/// each `extremely_hardy`.
pub open spec fn stamina_of(attrs: Seq<Attr>) -> nat {
    2 * count_attr(attrs, Attr::Hardy) + 4 * count_attr(attrs, Attr::VeryHardy) + 8 * count_attr(
        attrs,
        Attr::ExtremelyHardy,
    )
}

/// Where a unit can hide: nowhere without an attribute of hiding; else
/// anywhere, in improved forest or in long grass, the first that it has.
pub open spec fn hide_ability(attrs: Seq<Attr>) -> Option<Ability> {
    if !has_attr(attrs, Attr::HideForest) && !has_attr(attrs, Attr::HideImprovedForest) && !has_attr(
        attrs,
        Attr::HideLongGrass,
    ) && !has_attr(attrs, Attr::HideAnywhere) {
        Some(Ability::CantHide)
    } else if has_attr(attrs, Attr::HideAnywhere) {
        Some(Ability::HideAnywhere)
    } else if has_attr(attrs, Attr::HideImprovedForest) {
        Some(Ability::HideImprovedForest)
    } else if has_attr(attrs, Attr::HideLongGrass) {
        Some(Ability::HideLongGrass)
    } else {
        None
    }
}

/// Whom a unit frightens.
pub open spec fn frighten_ability(attrs: Seq<Attr>) -> Option<Ability> {
    let foot = has_attr(attrs, Attr::FrightenFoot);
    let mounted = has_attr(attrs, Attr::FrightenMounted);
    if foot && mounted {
        Some(Ability::FrightenAll)
    } else if foot {
        Some(Ability::FrightenFoot)
    } else if mounted {
        Some(Ability::FrightenMounted)
    } else {
        None
    }
}

pub open spec fn opt_seq(a: Option<Ability>) -> Seq<Ability> {
    match a {
        Some(x) => seq![x],
        None => seq![],
    }
}

/// Whether a unit's primary weapon is a spear.
pub open spec fn spear_weapon(u: Unit) -> bool {
    exists|i: int|
        0 <= i < u.stats.primary_weapon.attributes@.len() && crate::parse::model::is_spear_attr(
            #[trigger] u.stats.primary_weapon.attributes@[i],
        )
}

/// A unit's class: a general's bodyguard, an elephant rider, then by its
/// category (cavalry, handlers, siege, ships) and its class (missile,
/// spearmen or a spear for a weapon), else swordsmen.
pub open spec fn class_of(u: Unit, ms: Seq<(String, Mount)>) -> UnitClass {
    if has_attr(u.stats.attributes@, Attr::GeneralUnit) {
        UnitClass::General
    } else if unit_mount(u, ms) matches Some(m) && m.class == MountClass::Elephant {
        UnitClass::Animal
    } else if has_substring(u.category@, "cavalry"@) {
        UnitClass::Cavalry
    } else if has_substring(u.category@, "handler"@) {
        UnitClass::Animal
    } else if has_substring(u.category@, "siege"@) {
        UnitClass::Artillery
    } else if has_substring(u.category@, "ship"@) {
        UnitClass::Ship
    } else if has_substring(u.class@, "missile"@) {
        UnitClass::Missile
    } else if has_substring(u.class@, "spearmen"@) || spear_weapon(u) {
        UnitClass::Spear
    } else {
        UnitClass::Sword
    }
}

/// What a unit's class is by its kind: a general's bodyguard is a general;
/// else a rider of an elephant is an animal; else by its category, cavalry
/// is cavalry, handlers are animals, siege engines artillery and ships
/// ships; else by its class, missile troops are missile troops, spearmen
/// (or a unit with a spear) spearmen, and the rest swordsmen.
pub proof fn law_unit_class(u: Unit, ms: Seq<(String, Mount)>)
    ensures
        ({
            let general = has_attr(u.stats.attributes@, Attr::GeneralUnit);
            let elephant = unit_mount(u, ms) matches Some(m) && m.class == MountClass::Elephant;
            let cat = u.category@;
            let cls = u.class@;
            let foot = !general && !elephant && !has_substring(cat, "cavalry"@) && !has_substring(
                cat,
                "handler"@,
            ) && !has_substring(cat, "siege"@) && !has_substring(cat, "ship"@);
            &&& general ==> class_of(u, ms) == UnitClass::General
            &&& !general && elephant ==> class_of(u, ms) == UnitClass::Animal
            &&& !general && !elephant && has_substring(cat, "cavalry"@) ==> class_of(u, ms)
                == UnitClass::Cavalry
            &&& !general && !elephant && !has_substring(cat, "cavalry"@) && has_substring(
                cat,
                "handler"@,
            ) ==> class_of(u, ms) == UnitClass::Animal
            &&& !general && !elephant && !has_substring(cat, "cavalry"@) && !has_substring(
                cat,
                "handler"@,
            ) && has_substring(cat, "siege"@) ==> class_of(u, ms) == UnitClass::Artillery
            &&& !general && !elephant && !has_substring(cat, "cavalry"@) && !has_substring(
                cat,
                "handler"@,
            ) && !has_substring(cat, "siege"@) && has_substring(cat, "ship"@) ==> class_of(u, ms)
                == UnitClass::Ship
            &&& foot && has_substring(cls, "missile"@) ==> class_of(u, ms) == UnitClass::Missile
            &&& foot && !has_substring(cls, "missile"@) && (has_substring(cls, "spearmen"@)
                || spear_weapon(u)) ==> class_of(u, ms) == UnitClass::Spear
            &&& foot && !has_substring(cls, "missile"@) && !has_substring(cls, "spearmen"@)
                && !spear_weapon(u) ==> class_of(u, ms) == UnitClass::Sword
        }),
{
}

/// A unit's abilities: those of its attributes, then where it hides and
/// whom it frightens; a ship has none.
pub open spec fn abilities_of(u: Unit, ms: Seq<(String, Mount)>) -> Seq<Ability> {
    let attrs = u.stats.attributes@;
    if class_of(u, ms) == UnitClass::Ship {
        seq![]
    } else {
        attr_abilities(attrs) + opt_seq(hide_ability(attrs)) + opt_seq(frighten_ability(attrs))
    }
}

/// What a unit's attributes and kind make of it in the catalog.
#[derive(Debug)]
pub struct UnitTraits {
    pub class: UnitClass,
    pub abilities: Vec<Ability>,
    pub stamina: u32,
    pub inexhaustible: bool,
    pub infinite_ammo: bool,
    pub scaling: bool,
    pub horde: bool,
    pub general: bool,
    pub mercenary: bool,
    pub legionary_name: bool,
    pub is_militia: bool,
    pub is_unique: bool,
}

pub open spec fn traits_ok(u: Unit, ms: Seq<(String, Mount)>, t: UnitTraits) -> bool {
    let attrs = u.stats.attributes@;
    &&& t.class == class_of(u, ms)
    &&& t.abilities@ == abilities_of(u, ms)
    &&& t.stamina == stamina_of(attrs)
    &&& t.inexhaustible == has_attr(attrs, Attr::Inexhaustible)
    &&& t.infinite_ammo == has_attr(attrs, Attr::InfiniteAmmo)
    &&& t.scaling == !has_attr(attrs, Attr::NonScaling)
    &&& t.horde == has_attr(attrs, Attr::CanHorde)
    &&& t.general == has_attr(attrs, Attr::GeneralUnit)
    &&& t.mercenary == has_attr(attrs, Attr::MercenaryUnit)
    &&& t.legionary_name == has_attr(attrs, Attr::LegionaryName)
    &&& t.is_militia == has_attr(attrs, Attr::FreeUpkeep)
    &&& t.is_unique == has_attr(attrs, Attr::Unique)
}

proof fn lemma_has_attr_step(attrs: Seq<Attr>, i: int)
    requires
        0 <= i < attrs.len(),
    ensures
        forall|a: Attr| #[trigger] has_attr(attrs.take(i + 1), a) == (has_attr(attrs.take(i), a) || attrs[i]
            == a),
{
    let pre = attrs.take(i);
    let next = attrs.take(i + 1);
    assert forall|a: Attr| #[trigger] has_attr(next, a) == (has_attr(pre, a) || attrs[i] == a) by {
        if has_attr(next, a) && !has_attr(pre, a) {
            let j = choose|j: int| 0 <= j < next.len() && #[trigger] next[j] == a;
            if j < i {
                assert(pre[j] == a);
            }
        }
        if has_attr(pre, a) {
            let j = choose|j: int| 0 <= j < pre.len() && #[trigger] pre[j] == a;
            assert(next[j] == a);
        }
        if attrs[i] == a {
            assert(next[i] == a);
        }
    }
}

proof fn lemma_count_bound(attrs: Seq<Attr>, a: Attr)
    ensures
        count_attr(attrs, a) <= attrs.len(),
    decreases attrs.len(),
{
    if attrs.len() > 0 {
        lemma_count_bound(attrs.drop_last(), a);
    }
}

/// Which of the attributes that decide a unit's traits a scan has met.
#[derive(Clone, Copy)]
struct Seen {
    hide_forest: bool,
    hide_improved_forest: bool,
    hide_long_grass: bool,
    hide_anywhere: bool,
    frighten_foot: bool,
    frighten_mounted: bool,
    inexhaustible: bool,
    infinite_ammo: bool,
    non_scaling: bool,
    horde: bool,
    general: bool,
    mercenary: bool,
    legionary_name: bool,
    free_upkeep: bool,
    unique: bool,
}

/// `s` records exactly which of those attributes occur in `p`.
spec fn seen_in(s: Seen, p: Seq<Attr>) -> bool {
    &&& s.hide_forest == has_attr(p, Attr::HideForest)
    &&& s.hide_improved_forest == has_attr(p, Attr::HideImprovedForest)
    &&& s.hide_long_grass == has_attr(p, Attr::HideLongGrass)
    &&& s.hide_anywhere == has_attr(p, Attr::HideAnywhere)
    &&& s.frighten_foot == has_attr(p, Attr::FrightenFoot)
    &&& s.frighten_mounted == has_attr(p, Attr::FrightenMounted)
    &&& s.inexhaustible == has_attr(p, Attr::Inexhaustible)
    &&& s.infinite_ammo == has_attr(p, Attr::InfiniteAmmo)
    &&& s.non_scaling == has_attr(p, Attr::NonScaling)
    &&& s.horde == has_attr(p, Attr::CanHorde)
    &&& s.general == has_attr(p, Attr::GeneralUnit)
    &&& s.mercenary == has_attr(p, Attr::MercenaryUnit)
    &&& s.legionary_name == has_attr(p, Attr::LegionaryName)
    &&& s.free_upkeep == has_attr(p, Attr::FreeUpkeep)
    &&& s.unique == has_attr(p, Attr::Unique)
}

/// `s` after meeting the attribute `a`.
fn note_attr(s: Seen, a: &Attr) -> (r: Seen)
    ensures
        r.hide_forest == (s.hide_forest || *a == Attr::HideForest),
        r.hide_improved_forest == (s.hide_improved_forest || *a == Attr::HideImprovedForest),
        r.hide_long_grass == (s.hide_long_grass || *a == Attr::HideLongGrass),
        r.hide_anywhere == (s.hide_anywhere || *a == Attr::HideAnywhere),
        r.frighten_foot == (s.frighten_foot || *a == Attr::FrightenFoot),
        r.frighten_mounted == (s.frighten_mounted || *a == Attr::FrightenMounted),
        r.inexhaustible == (s.inexhaustible || *a == Attr::Inexhaustible),
        r.infinite_ammo == (s.infinite_ammo || *a == Attr::InfiniteAmmo),
        r.non_scaling == (s.non_scaling || *a == Attr::NonScaling),
        r.horde == (s.horde || *a == Attr::CanHorde),
        r.general == (s.general || *a == Attr::GeneralUnit),
        r.mercenary == (s.mercenary || *a == Attr::MercenaryUnit),
        r.legionary_name == (s.legionary_name || *a == Attr::LegionaryName),
        r.free_upkeep == (s.free_upkeep || *a == Attr::FreeUpkeep),
        r.unique == (s.unique || *a == Attr::Unique),
{
    Seen {
        hide_forest: s.hide_forest || matches!(a, Attr::HideForest),
        hide_improved_forest: s.hide_improved_forest || matches!(a, Attr::HideImprovedForest),
        hide_long_grass: s.hide_long_grass || matches!(a, Attr::HideLongGrass),
        hide_anywhere: s.hide_anywhere || matches!(a, Attr::HideAnywhere),
        frighten_foot: s.frighten_foot || matches!(a, Attr::FrightenFoot),
        frighten_mounted: s.frighten_mounted || matches!(a, Attr::FrightenMounted),
        inexhaustible: s.inexhaustible || matches!(a, Attr::Inexhaustible),
        infinite_ammo: s.infinite_ammo || matches!(a, Attr::InfiniteAmmo),
        non_scaling: s.non_scaling || matches!(a, Attr::NonScaling),
        horde: s.horde || matches!(a, Attr::CanHorde),
        general: s.general || matches!(a, Attr::GeneralUnit),
        mercenary: s.mercenary || matches!(a, Attr::MercenaryUnit),
        legionary_name: s.legionary_name || matches!(a, Attr::LegionaryName),
        free_upkeep: s.free_upkeep || matches!(a, Attr::FreeUpkeep),
        unique: s.unique || matches!(a, Attr::Unique),
    }
}

/// The ability that the attribute `a` gives.
fn ability_for(a: &Attr) -> (r: Option<Ability>)
    ensures
        r == ability_of(*a),
{
    match a {
        Attr::CanRunAmok => Some(Ability::CanRunAmok),
        Attr::CantabrianCircle => Some(Ability::CantabrianCircle),
        Attr::Command => Some(Ability::Command),
        Attr::Druid | Attr::ScreechingWomen => Some(Ability::Chant),
        Attr::Warcry => Some(Ability::Warcry),
        Attr::PowerCharge => Some(Ability::PowerCharge),
        Attr::Knight => Some(Ability::Knight),
        Attr::FormedCharge => Some(Ability::FormedCharge),
        Attr::Stakes => Some(Ability::Stakes),
        _ => None,
    }
}

/// The stamina that the attribute `a` adds.
fn stamina_for(a: &Attr) -> (r: u32)
    ensures
        r == 2 * (if *a == Attr::Hardy { 1int } else { 0 }) + 4 * (if *a == Attr::VeryHardy { 1int } else { 0 })
            + 8 * (if *a == Attr::ExtremelyHardy { 1int } else { 0 }),
{
    match a {
        Attr::Hardy => 2,
        Attr::VeryHardy => 4,
        Attr::ExtremelyHardy => 8,
        _ => 0,
    }
}

/// One pass over a unit's attributes: what it has met, the abilities they
/// give and the stamina they add.
fn scan_attrs(attrs: &Vec<Attr>) -> (r: (Seen, Vec<Ability>, u32))
    requires
        attrs@.len() <= 0x1000_0000,
    ensures
        seen_in(r.0, attrs@),
        r.1@ == attr_abilities(attrs@),
        r.2 == stamina_of(attrs@),
{
    let mut seen = Seen {
        hide_forest: false,
        hide_improved_forest: false,
        hide_long_grass: false,
        hide_anywhere: false,
        frighten_foot: false,
        frighten_mounted: false,
        inexhaustible: false,
        infinite_ammo: false,
        non_scaling: false,
        horde: false,
        general: false,
        mercenary: false,
        legionary_name: false,
        free_upkeep: false,
        unique: false,
    };
    let mut abilities: Vec<Ability> = Vec::new();
    let mut stamina: u32 = 0;
    let mut i: usize = 0;
    assert(attrs@.take(0) =~= Seq::<Attr>::empty());
    while i < attrs.len()
        invariant
            0 <= i <= attrs.len(),
            attrs@.len() <= 0x1000_0000,
            seen_in(seen, attrs@.take(i as int)),
            abilities@ == attr_abilities(attrs@.take(i as int)),
            stamina == stamina_of(attrs@.take(i as int)),
        decreases attrs.len() - i,
    {
        let ghost pre = attrs@.take(i as int);
        let ghost next = attrs@.take(i + 1);
        proof {
            lemma_has_attr_step(attrs@, i as int);
            assert(next.drop_last() =~= pre);
            assert(next.last() == attrs@[i as int]);
            lemma_count_bound(pre, Attr::Hardy);
            lemma_count_bound(pre, Attr::VeryHardy);
            lemma_count_bound(pre, Attr::ExtremelyHardy);
        }
        seen = note_attr(seen, &attrs[i]);
        match ability_for(&attrs[i]) {
            Some(b) => abilities.push(b),
            None => {},
        }
        stamina = stamina + stamina_for(&attrs[i]);
        i += 1;
    }
    assert(attrs@.take(attrs.len() as int) =~= attrs@);
    (seen, abilities, stamina)
}

/// A unit's class, decided as `class_of` says.
fn unit_class(unit: &Unit, mounts: &Vec<(String, Mount)>) -> (c: UnitClass)
    ensures
        c == class_of(*unit, mounts@),
{
    let category = crate::chars::chars_of(unit.category.as_str());
    let uclass = crate::chars::chars_of(unit.class.as_str());
    if crate::parse::model::is_general(unit) {
        UnitClass::General
    } else if is_elephant(unit, mounts) {
        UnitClass::Animal
    } else if contains_str(&category, "cavalry") {
        UnitClass::Cavalry
    } else if contains_str(&category, "handler") {
        UnitClass::Animal
    } else if contains_str(&category, "siege") {
        UnitClass::Artillery
    } else if contains_str(&category, "ship") {
        UnitClass::Ship
    } else if contains_str(&uclass, "missile") {
        UnitClass::Missile
    } else if contains_str(&uclass, "spearmen") || crate::parse::model::has_spears(unit) {
        UnitClass::Spear
    } else {
        UnitClass::Sword
    }
}

/// What a unit's attributes and kind make of it in the catalog.
pub fn unit_traits(unit: &Unit, mounts: &Vec<(String, Mount)>) -> (t: UnitTraits)
    requires
        unit.stats.attributes@.len() <= 0x1000_0000,
    ensures
        traits_ok(*unit, mounts@, t),
{
    let attrs = &unit.stats.attributes;
    let (seen, mut abilities, stamina) = scan_attrs(attrs);
    let class = unit_class(unit, mounts);
    let ghost base = abilities@;
    if !seen.hide_forest && !seen.hide_improved_forest && !seen.hide_long_grass && !seen.hide_anywhere {
        abilities.push(Ability::CantHide);
    } else if seen.hide_anywhere {
        abilities.push(Ability::HideAnywhere);
    } else if seen.hide_improved_forest {
        abilities.push(Ability::HideImprovedForest);
    } else if seen.hide_long_grass {
        abilities.push(Ability::HideLongGrass);
    }
    assert(abilities@ =~= base + opt_seq(hide_ability(attrs@)));
    let ghost hidden = abilities@;
    if seen.frighten_foot && seen.frighten_mounted {
        abilities.push(Ability::FrightenAll);
    } else if seen.frighten_foot {
        abilities.push(Ability::FrightenFoot);
    } else if seen.frighten_mounted {
        abilities.push(Ability::FrightenMounted);
    }
    assert(abilities@ =~= hidden + opt_seq(frighten_ability(attrs@)));
    if class == UnitClass::Ship {
        abilities.clear();
    }
    UnitTraits {
        class,
        abilities,
        stamina,
        inexhaustible: seen.inexhaustible,
        infinite_ammo: seen.infinite_ammo,
        scaling: !seen.non_scaling,
        horde: seen.horde,
        general: seen.general,
        mercenary: seen.mercenary,
        legionary_name: seen.legionary_name,
        is_militia: seen.free_upkeep,
        is_unique: seen.unique,
    }
}

} // verus!
