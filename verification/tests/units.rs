use faust::catalog::build_weapon;
use faust::chars::chars_of;
use faust::parse::descr_mercenaries;
use faust::parse::export_descr_unit::{self as edu, parse_attribute, parse_ownership, parse_weapon_attribute, Attr, WeaponAttr};
use faust::parse::manifest::ParserMode;
use faust::parse::ParseError;

const UNIT: &str = "\
type             roman hastati
dictionary       roman_hastati      ; Hastati
category         infantry
class            heavy
soldier          roman_hastati, 40, 0, 1
officer          roman_centurion
officer          roman_standard
mount            horse
attributes       sea_faring, hide_forest, general_unit_upgrade \"marian_reforms\", can_horde
formation        1, 2, 2, 3, 4, square, horde
stat_health      1, 0
stat_pri         7, 2, pilum, 35, 2, thrown, blade, piercing, spear, 25, 1.5
stat_pri_attr    prec, thrown, ap, spear_bonus_4, no
stat_sec         no, 0, no, 0, 0, no, melee_simple, blunt, none, 25, 1
stat_sec_attr    no
stat_pri_armour  5, 5, x, metal
stat_sec_armour  0, 0, flesh
stat_heat        -2
stat_ground      2, 0, -1, -2
stat_mental      9, normal, trained
stat_cost        1, 460, 150, 60, 70, 460
ownership        romans_julii, romans_brutii romans_scipii
";

#[test]
fn unit_record_is_read() {
    let us = edu::parse(UNIT, ParserMode::Original).unwrap();
    assert_eq!(us.len(), 1);
    let u = &us[0];
    assert_eq!(u.id, "roman hastati");
    assert_eq!(u.key, "roman_hastati");
    assert_eq!(u.category, "infantry");
    assert_eq!(u.class, "heavy");
    assert_eq!(u.ownership, vec!["romans_julii", "romans_brutii", "romans_scipii"]);
    let s = &u.stats;
    assert_eq!(s.soldiers, 40);
    assert_eq!(s.officers, 2);
    assert_eq!(s.mount.as_deref(), Some("horse"));
    assert_eq!(
        s.attributes,
        vec![
            Attr::SeaFaring,
            Attr::HideForest,
            Attr::GeneralUnitUpgrade("marian_reforms".into()),
            Attr::CanHorde
        ]
    );
    assert_eq!(s.formations, vec!["square", "horde"]);
    assert_eq!((s.hp, s.hp_mount), (1, 0));
    let w = &s.primary_weapon;
    assert_eq!((w.factor, w.charge, w.range, w.ammo), (7, 2, 35, 2));
    assert_eq!(w.missile, "pilum");
    assert_eq!(w.weapon_type, "thrown");
    assert_eq!(w.tech_type, "blade");
    assert_eq!(w.lethality, "1.5");
    assert_eq!(
        w.attributes,
        vec![WeaponAttr::Precharge, WeaponAttr::Thrown, WeaponAttr::ArmorPiercing, WeaponAttr::SpearBonus(4)]
    );
    assert_eq!(s.secondary_weapon.weapon_type, "no");
    assert_eq!(s.secondary_weapon.lethality, "0");
    assert_eq!((s.defense.armor, s.defense.skill, s.defense.shield), (5, 5, 0));
    assert_eq!((s.defense_mount.armor, s.defense_mount.skill, s.defense_mount.shield), (0, 0, 0));
    assert_eq!(s.heat, -2);
    assert_eq!((s.ground_bonus.scrub, s.ground_bonus.sand, s.ground_bonus.forest, s.ground_bonus.snow), (2, 0, -1, -2));
    assert_eq!(s.morale, 9);
    assert_eq!(s.discipline, "normal");
    assert_eq!((s.turns, s.cost, s.upkeep), (1, 460, 150));
    assert_eq!(s.speed_mod, "1.0");
}

#[test]
fn unit_errors() {
    let no_cost = UNIT.replace("stat_cost        1, 460, 150, 60, 70, 460\n", "");
    assert!(matches!(edu::parse(&no_cost, ParserMode::Original), Err(ParseError::KeyNotFound("stat_cost"))));
    let bad_hp = UNIT.replace("stat_health      1, 0", "stat_health      one, 0");
    assert!(matches!(edu::parse(&bad_hp, ParserMode::Original), Err(ParseError::InvalidNumber("hit points"))));
    let no_soldiers = UNIT.replace("soldier          roman_hastati, 40, 0, 1\n", "");
    assert!(matches!(edu::parse(&no_soldiers, ParserMode::Original), Err(ParseError::Missing("soldier/soldiers info"))));
    let speed = UNIT.replace("type             roman hastati\n", "type             roman hastati\nmove_speed_mod   fast\n");
    assert!(matches!(edu::parse(&speed, ParserMode::Original), Err(ParseError::InvalidNumber("move_speed_mod"))));
    let forms = UNIT.replace("formation        1, 2, 2, 3, 4, square, horde", "formation        1, 2");
    assert!(matches!(edu::parse(&forms, ParserMode::Original), Err(ParseError::Missing("formations"))));
}

#[test]
fn attributes_by_name() {
    assert_eq!(parse_attribute(&chars_of("very_hardy")), Attr::VeryHardy);
    assert_eq!(parse_attribute(&chars_of("crossbow")), Attr::UiOrAiHint);
    assert_eq!(parse_attribute(&chars_of("general_unit_upgrade")), Attr::GeneralUnitUpgrade("marian_reforms".into()));
    assert_eq!(parse_attribute(&chars_of("general_unit_upgrade 'x'")), Attr::GeneralUnitUpgrade("x".into()));
    assert_eq!(parse_attribute(&chars_of("flying")), Attr::Unknown);
}

#[test]
fn weapon_attributes_by_name() {
    assert!(matches!(parse_weapon_attribute(&chars_of("long_pike")), Ok(WeaponAttr::LongPike)));
    assert!(matches!(parse_weapon_attribute(&chars_of("fire")), Ok(WeaponAttr::Unknown)));
    assert!(matches!(parse_weapon_attribute(&chars_of("spear_bonus_8")), Ok(WeaponAttr::SpearBonus(8))));
    assert!(matches!(parse_weapon_attribute(&chars_of("spear_bonus_x")), Err(ParseError::InvalidNumber("spear bonus"))));
}

#[test]
fn ownership_names() {
    assert_eq!(parse_ownership(&chars_of("a, b  c,")), vec!["a", "b", "c"]);
}

const POOL: &str = "\
pool italy
    regions Etruria, Latium Campania
    unit roman hastati,\texp 1 cost 400 replenish 0.15 - 0.3 max 4 initial 1
    unit barbarian infantry, exp 0 cost 300 replenish 0.1 - 0.2 max 3 initial end_year restrict gauls, germans
pool greece
    regions Attica
";

#[test]
fn mercenary_pools_are_read() {
    let ps = descr_mercenaries::parse(POOL, ParserMode::Original).unwrap();
    assert_eq!(ps.len(), 2);
    assert_eq!(ps[0].id, "italy");
    assert_eq!(ps[0].regions, vec!["Etruria", "Latium", "Campania"]);
    assert_eq!(ps[0].units.len(), 2);
    let u = &ps[0].units[0];
    assert_eq!(u.id, "roman hastati");
    assert_eq!((u.exp, u.cost, u.max, u.initial), (1, 400, 4, 1));
    assert_eq!(u.replenish, ("0.15".to_string(), "0.3".to_string()));
    assert!(u.restrict.is_empty());
    let v = &ps[0].units[1];
    assert_eq!(v.initial, 0);
    assert_eq!(v.restrict, vec!["gauls", "germans"]);
    assert!(ps[1].units.is_empty());
}

#[test]
fn mercenary_errors() {
    let bad = "pool p\nregions r\nunit x exp 1 cost 2\n";
    assert!(matches!(descr_mercenaries::parse(bad, ParserMode::Original), Err(ParseError::Missing("unit entry data"))));
    let bad = "pool p\nregions r\nunit x, exp 1 cost 2 replenish fast - 0.2 max 1 initial 0\n";
    assert!(matches!(
        descr_mercenaries::parse(bad, ParserMode::Original),
        Err(ParseError::InvalidNumber("unit replenish lower bound"))
    ));
    assert!(matches!(descr_mercenaries::parse("pool p\n", ParserMode::Original), Err(ParseError::KeyNotFound("regions"))));
    assert!(matches!(descr_mercenaries::parse("pool p\nregions r\nunit\n", ParserMode::Original), Err(ParseError::Missing("pool entry data"))));
}

fn weapon(lethality: &str) -> edu::Weapon {
    edu::Weapon {
        factor: 7,
        charge: 2,
        missile: "no".into(),
        range: 0,
        ammo: 0,
        lethality: lethality.into(),
        weapon_type: "melee".into(),
        tech_type: "simple".into(),
        attributes: vec![WeaponAttr::SpearBonus(4)],
    }
}

#[test]
fn weapon_lethality_is_at_most_one() {
    let shown = |l: &str| build_weapon(&weapon(l)).unwrap().lethality;
    assert_eq!(shown("1.5"), "1");
    assert_eq!(shown("2"), "1");
    assert_eq!(shown("inf"), "1");
    assert_eq!(shown("1e3"), "1");
    assert_eq!(shown("1.0000000000000003"), "1");
    assert_eq!(shown("0.5"), "0.5");
    assert_eq!(shown("1"), "1");
    assert_eq!(shown("1.0"), "1.0");
    assert_eq!(shown("-inf"), "-inf");
    assert_eq!(shown("NaN"), "NaN");
    // Less than half the gap above 1 to the next double: read as 1.
    assert_eq!(shown("1.00000000000000011"), "1.00000000000000011");
    let w = build_weapon(&weapon("0.25")).unwrap();
    assert_eq!(w.spear_bonus, 4);
    assert!(!w.is_missile);
    assert!(build_weapon(&edu::Weapon { weapon_type: "no".into(), ..weapon("1") }).is_none());
}
