use faust::catalog::{Ability, MountType, UnitClass, WeaponType};
use faust::numbers::decimal;
use faust::order::{insert_name, insert_names, name_less, names_less};
use faust::parse::descr_mercenaries::{Pool, Unit as MercUnit};
use faust::parse::descr_mount::{Mount, MountClass};
use faust::parse::descr_regions::Region;
use faust::parse::descr_sm_factions::Faction;
use faust::parse::eval::{evaluate, resolves_within, Evaluator, EvaluatorChoices};
use faust::parse::export_descr_buildings::requirement::Parser;
use faust::parse::export_descr_buildings::{self as edb, Requires};
use faust::parse::export_descr_unit as edu;
use faust::parse::manifest::ParserMode;
use faust::parse::model::{build_model, build_requires, build_tech_levels, unit_map, RawModel};
use faust::render::renderer::{mercenary_portraits, module_with_images};
use faust::render::routes::{collect_routes, SiteRoute};
use faust::site::{
    build_faction, build_module, build_pool, build_unit, calculate_aors, display_name, era_of,
    is_regional, unit_eras, unit_image, unit_tech_level, Aor, BuildError, EraEntry,
    IntermediateModel, ModelConfig,
};

fn unit_text(id: &str, key: &str, category: &str, class: &str, mount: &str, attrs: &str, hp: &str, owners: &str) -> String {
    let mount_line = if mount.is_empty() { String::new() } else { format!("mount            {mount}\n") };
    format!(
        "type             {id}
dictionary       {key}      ; x
category         {category}
class            {class}
soldier          {key}, 40, 0, 1
officer          roman_centurion
{mount_line}attributes       {attrs}
formation        1, 2, 2, 3, 4, square
stat_health      {hp}
stat_pri         7, 2, no, 0, 0, melee, blade, piercing, spear, 25, 1
stat_pri_attr    spear
stat_sec         no, 0, no, 0, 0, no, melee_simple, blunt, none, 25, 1
stat_sec_attr    no
stat_pri_armour  5, 5, 4, metal
stat_sec_armour  0, 0, flesh
stat_heat        1
stat_ground      2, 0, -1, -2
stat_mental      9, normal, trained
stat_cost        1, 460, 150, 60, 70, 460
ownership        {owners}
"
    )
}

fn units() -> Vec<edu::Unit> {
    let text = [
        unit_text("roman hastati", "Roman_Hastati", "infantry", "spearmen", "", "sea_faring, hardy, can_horde", "-1, 0", "romans_julii"),
        unit_text("italian spearmen", "italian_spearmen", "infantry", "light", "", "hide_forest", "1, 0", "romans_julii, gauls"),
        unit_text("merc hoplites", "merc_hoplites", "infantry", "heavy", "", "mercenary_unit", "1, 0", "romans_julii"),
        unit_text("gallic horse", "gallic_horse", "cavalry", "light", "horse", "frighten_foot", "1, 2", "gauls"),
    ]
    .concat();
    edu::parse(&text, ParserMode::Original).unwrap()
}

const BUILDINGS: &str = "\
building barracks
{
    levels militia_barracks city_barracks
    {
        militia_barracks
        {
            capability
            {
                recruit \"roman hastati\" 0
                recruit \"merc hoplites\" 0
                recruit \"gallic horse\" 0
                recruit \"italian spearmen\" 0 requires hidden_resource italy
            }
            settlement_min town
        }
        city_barracks
        {
            capability
            {
                recruit \"roman hastati\" 0
            }
            settlement_min village
        }
    }
}
";

fn faction(id: &str, name: &str, culture: &str, logo: &str) -> Faction {
    Faction { id: id.into(), name: name.into(), culture: culture.into(), logo: logo.into() }
}

fn region(id: &str, res: &[&str]) -> Region {
    Region {
        id: id.into(),
        legion: None,
        city: "c".into(),
        color: (1, 2, 3),
        hidden_resources: res.iter().map(|s| s.to_string()).collect(),
    }
}

fn regions() -> Vec<Region> {
    vec![region("Etruria", &["rome", "italy"]), region("Gallia", &["gaul"]), region("Apulia", &["italy"])]
}

fn factions() -> Vec<Faction> {
    vec![faction("romans_julii", "Julii", "roman", "Julii.TGA"), faction("gauls", "Gauls", "barbarian", "Gauls.tga")]
}

fn mounts() -> Vec<(String, Mount)> {
    vec![("horse".into(), Mount { id: "horse".into(), class: MountClass::Horse, model: None, horse: None })]
}

fn pool() -> Pool {
    Pool {
        id: "pool_italy".into(),
        regions: vec!["Etruria".into()],
        units: vec![MercUnit {
            id: "merc hoplites".into(),
            exp: 1,
            cost: 500,
            replenish: ("0.1".into(), "0.2".into()),
            max: 2,
            initial: 1,
            restrict: vec!["romans_julii".into()],
        }],
    }
}

fn gaulish_era() -> Evaluator {
    Evaluator {
        default: None,
        faction: Some(EvaluatorChoices { map: vec![("gauls".into(), true)], default: Some(false) }),
        resource: None,
        hidden_resource: None,
        major_event: None,
    }
}

fn config(info_images: bool) -> ModelConfig {
    ModelConfig {
        unit_info_images: info_images,
        exclude: vec![],
        pools: vec![],
        aors: vec!["Italia".into()],
        eras: vec![("all".into(), Evaluator::default()), ("gaulish".into(), gaulish_era())],
        aliases: vec![("rome".into(), "romans_julii".into())],
    }
}

fn text() -> Vec<(String, String)> {
    vec![("roman_hastati".into(), "  Hastati ".into()), ("julii".into(), " The Julii ".into())]
}

fn intermediate() -> IntermediateModel {
    let (aliases, buildings) = edb::parse(BUILDINGS, ParserMode::Original).unwrap();
    let um = unit_map(units());
    let requires = build_requires(&buildings, &um);
    let tech_levels = build_tech_levels(&buildings);
    IntermediateModel {
        unit_map: um,
        factions: factions(),
        regions: regions(),
        pools: vec![pool()],
        buildings,
        require_aliases: aliases,
        text: text(),
        strat: vec![("gauls".into(), 0), ("romans_julii".into(), 1)],
        mounts: mounts(),
        models: vec![],
        requires,
        tech_levels,
    }
}

fn raw_model() -> RawModel {
    let (aliases, buildings) = edb::parse(BUILDINGS, ParserMode::Original).unwrap();
    RawModel {
        units: units(),
        factions: factions(),
        regions: regions(),
        pools: vec![pool()],
        buildings,
        require_aliases: aliases,
        text: text(),
        strat: vec![("gauls".into(), 0), ("romans_julii".into(), 1)],
        mounts: mounts(),
        models: vec![],
    }
}

#[test]
fn shown_names_come_from_the_strings_by_lowercase_key() {
    let t = text();
    assert_eq!(display_name(&t, "Roman_Hastati"), "Hastati");
    assert_eq!(display_name(&t, " unknown_key "), "unknown_key");
    let later = vec![("a".to_string(), "first".to_string()), ("a".to_string(), "second".to_string())];
    assert_eq!(display_name(&later, "A"), "second");
}

#[test]
fn unit_pictures() {
    assert_eq!(unit_image(false, "Romans_Julii", "Roman_Hastati"), "data/ui/units/romans_julii/#roman_hastati.tga");
    assert_eq!(unit_image(true, "Romans_Julii", "Roman_Hastati"), "data/ui/unit_info/romans_julii/roman_hastati_info.tga");
    assert_eq!(unit_image(true, "mercs", "Merc_Hoplites"), "data/ui/unit_info/merc/merc_hoplites_info.tga");
    assert_eq!(unit_image(false, "mercs", "Merc_Hoplites"), "data/ui/units/mercs/#merc_hoplites.tga");
}

#[test]
fn numbers_in_decimal() {
    let s: String = decimal(0).into_iter().collect();
    assert_eq!(s, "0");
    let s: String = decimal(1907).into_iter().collect();
    assert_eq!(s, "1907");
}

#[test]
fn names_in_order() {
    assert!(name_less("Apulia", "Etruria"));
    assert!(!name_less("Etruria", "Apulia"));
    assert!(name_less("Etr", "Etruria"));
    assert!(!name_less("Etruria", "Etruria"));
    assert!(name_less("Z", "a"));
    let a = vec!["Apulia".to_string()];
    let b = vec!["Apulia".to_string(), "Etruria".to_string()];
    assert!(names_less(&a, &b));
    assert!(!names_less(&b, &a));
    let mut v: Vec<String> = vec![];
    for n in ["b", "a", "c", "a"] {
        insert_name(&mut v, n.to_string());
    }
    assert_eq!(v, vec!["a", "b", "c"]);
    let mut w: Vec<Vec<String>> = vec![];
    insert_names(&mut w, b.clone());
    insert_names(&mut w, a.clone());
    insert_names(&mut w, b.clone());
    assert_eq!(w, vec![a, b]);
}

#[test]
fn aliases_resolve_or_not() {
    let aliases = vec![("a".to_string(), Requires::Alias("b".into())), ("b".to_string(), Requires::Port)];
    assert!(resolves_within(&Requires::Alias("a".into()), &aliases, 2));
    assert!(!resolves_within(&Requires::Alias("a".into()), &aliases, 1));
    assert!(!resolves_within(&Requires::Alias("c".into()), &aliases, 2));
    let circle = vec![("a".to_string(), Requires::Alias("a".into()))];
    assert!(!resolves_within(&Requires::Alias("a".into()), &circle, 1));
    assert!(resolves_within(&Requires::And(vec![Requires::Port, Requires::IsPlayer]), &circle, 0));
}

#[test]
fn region_seen_by_a_faction() {
    let r = region("Etruria", &["italy"]);
    let f = faction("romans_julii", "Julii", "roman", "x");
    let ev = Evaluator::region_as(&r, Some(&f));
    let none = vec![];
    let req = Parser::parse("requires hidden_resource italy and factions { roman, }").unwrap();
    assert!(evaluate(&req, &none, &ev));
    let req = Parser::parse("requires hidden_resource italy and factions { gauls, }").unwrap();
    assert!(!evaluate(&req, &none, &ev));
    let ev = Evaluator::region_as(&r, None);
    assert!(evaluate(&req, &none, &ev));
}

#[test]
fn unit_as_the_site_shows_it() {
    let im = intermediate();
    let cfg = config(false);
    let u = &im.unit_map[0];
    let aors = vec![Aor {
        name: "".into(),
        map: "aor-1".into(),
        faction: "romans_julii".into(),
        units: vec!["roman hastati".into()],
        regions: vec![],
    }];
    let s = build_unit(u, &cfg, "romans_julii", &im, &aors);
    assert_eq!(s.id, "roman hastati");
    assert_eq!(s.key, "Roman_Hastati");
    assert_eq!(s.name, "Hastati");
    assert_eq!(s.image, "data/ui/units/romans_julii/#roman_hastati.tga");
    assert_eq!(s.hp, 0);
    assert_eq!(s.hp_mount, 0);
    assert_eq!(s.soldiers, 40);
    assert_eq!(s.officers, 1);
    assert_eq!(s.mount, MountType::Foot);
    assert_eq!(s.formations, vec!["square"]);
    assert_eq!(s.eras, vec!["all"]);
    assert!(s.is_regional);
    assert_eq!(s.tech_level, 0);
    assert_eq!(s.traits.class, UnitClass::Spear);
    assert_eq!(s.traits.stamina, 2);
    assert!(s.traits.horde);
    assert_eq!(s.traits.abilities, vec![Ability::CantHide]);
    assert_eq!(s.primary_weapon.as_ref().unwrap().class, WeaponType::Spear);
    assert!(s.secondary_weapon.is_none());
    assert_eq!((s.defense.armor, s.defense.skill, s.defense.shield), (5, 5, 4));
    assert_eq!(s.discipline, "normal");
    assert_eq!(s.cost, 460);
    let horse = build_unit(&im.unit_map[3], &cfg, "gauls", &im, &aors);
    assert_eq!(horse.mount, MountType::Horse);
    assert_eq!(horse.traits.class, UnitClass::Cavalry);
    assert_eq!(horse.hp_mount, 2);
    assert_eq!(horse.tech_level, 1);
    assert!(!horse.is_regional);
    assert_eq!(horse.eras, vec!["all", "gaulish"]);
    assert_eq!(horse.traits.abilities, vec![Ability::CantHide, Ability::FrightenFoot]);
}

#[test]
fn unit_helpers() {
    let im = intermediate();
    let aors = vec![Aor {
        name: "".into(),
        map: "aor-1".into(),
        faction: "gauls".into(),
        units: vec!["gallic horse".into()],
        regions: vec![],
    }];
    assert!(is_regional(&aors, "gauls", &"gallic horse".to_string()));
    assert!(!is_regional(&aors, "romans_julii", &"gallic horse".to_string()));
    assert_eq!(unit_tech_level(&im.tech_levels, &"roman hastati".to_string()), 0);
    assert_eq!(unit_tech_level(&im.tech_levels, &"nobody".to_string()), 99);
    let eras = config(false).eras;
    assert_eq!(unit_eras(&Requires::False, &vec![], &eras), Vec::<String>::new());
    let gauls = Requires::Factions(vec!["gauls".into()]);
    assert_eq!(unit_eras(&gauls, &vec![], &eras), vec!["all", "gaulish"]);
}

#[test]
fn faction_with_its_roster() {
    let im = intermediate();
    let cfg = config(false);
    let aors = calculate_aors(&cfg, &im);
    let f = build_faction(&im.factions[0], &cfg, &im, &aors);
    assert_eq!(f.id, "romans_julii");
    assert_eq!(f.name, "The Julii");
    assert_eq!(f.image, "julii.tga");
    assert_eq!(f.alias.as_deref(), Some("rome"));
    assert!(f.is_horde);
    assert!(f.has_aors);
    let ids: Vec<&str> = f.roster.iter().map(|u| u.id.as_str()).collect();
    assert_eq!(ids, vec!["roman hastati", "italian spearmen"]);
    assert!(f.roster.iter().all(|u| !u.traits.mercenary));
    assert_eq!(f.eras, vec!["gaulish"]);
    let g = build_faction(&im.factions[1], &cfg, &im, &aors);
    assert_eq!(g.name, "Gauls");
    assert_eq!(g.alias, None);
    assert!(!g.is_horde);
    let ids: Vec<&str> = g.roster.iter().map(|u| u.id.as_str()).collect();
    assert_eq!(ids, vec!["italian spearmen", "gallic horse"]);
    assert_eq!(g.eras, Vec::<String>::new());
}

#[test]
fn areas_of_recruitment() {
    let im = intermediate();
    let cfg = config(false);
    let aors = calculate_aors(&cfg, &im);
    assert_eq!(aors.len(), 2);
    for (a, f) in aors.iter().zip(["romans_julii", "gauls"]) {
        assert_eq!(a.name, "Italia");
        assert_eq!(a.map, "aor-1");
        assert_eq!(a.faction, f);
        assert_eq!(a.units, vec!["italian spearmen"]);
        assert_eq!(a.regions, vec!["Apulia", "Etruria"]);
    }
    let unnamed = ModelConfig { aors: vec![], ..config(false) };
    assert_eq!(calculate_aors(&unnamed, &im)[0].name, "");
}

#[test]
fn mercenary_pool() {
    let im = intermediate();
    let cfg = config(true);
    let p = build_pool(&im.pools[0], 0, &cfg, &im);
    assert_eq!(p.id, "pool_italy");
    assert_eq!(p.name, "pool_italy");
    assert_eq!(p.map, "pool-1");
    assert_eq!(p.regions, vec!["Etruria"]);
    assert_eq!(p.units.len(), 1);
    let e = &p.units[0];
    assert_eq!(e.unit.id, "merc hoplites");
    assert_eq!(e.unit.cost, 500);
    assert_eq!(e.unit.image, "data/ui/unit_info/merc/merc_hoplites_info.tga");
    assert!(e.unit.traits.mercenary);
    assert!(!e.unit.is_regional);
    assert_eq!((e.exp, e.max, e.initial), (1, 2, 1));
    assert_eq!(e.replenish, ("0.1".to_string(), "0.2".to_string()));
    assert_eq!(e.restrict, vec!["romans_julii"]);
    let named = ModelConfig { pools: vec!["Italian mercenaries".into()], ..config(true) };
    assert_eq!(build_pool(&im.pools[0], 0, &named, &im).name, "Italian mercenaries");
    assert_eq!(build_pool(&im.pools[0], 41, &named, &im).map, "pool-42");
}

#[test]
fn whole_model() {
    let cfg = config(false);
    let (factions, regions, pools, aors) = build_model(&cfg, raw_model()).unwrap();
    let ids: Vec<&str> = factions.iter().map(|(k, _)| k.as_str()).collect();
    assert_eq!(ids, vec!["gauls", "romans_julii"]);
    assert_eq!(factions[1].1.roster.len(), 2);
    let rids: Vec<&str> = regions.iter().map(|(k, _)| k.as_str()).collect();
    assert_eq!(rids, vec!["Etruria", "Gallia", "Apulia"]);
    assert_eq!(regions[0].1.hidden_resources, vec!["rome", "italy"]);
    assert_eq!(regions[0].1.color, (1, 2, 3));
    assert_eq!(pools.len(), 1);
    assert_eq!(aors.len(), 2);
}

#[test]
fn model_leaves_out_unplaced_and_excluded_factions() {
    let mut raw = raw_model();
    raw.strat = vec![("romans_julii".into(), 3), ("gauls".into(), 3)];
    raw.factions.push(faction("seleucids", "Seleucids", "greek", "s.tga"));
    let (factions, _, _, _) = build_model(&config(false), raw).unwrap();
    let ids: Vec<&str> = factions.iter().map(|(k, _)| k.as_str()).collect();
    assert_eq!(ids, vec!["romans_julii", "gauls"]);
    let cfg = ModelConfig { exclude: vec!["gauls".into()], ..config(false) };
    let (factions, _, _, _) = build_model(&cfg, raw_model()).unwrap();
    let ids: Vec<&str> = factions.iter().map(|(k, _)| k.as_str()).collect();
    assert_eq!(ids, vec!["romans_julii"]);
}

#[test]
fn model_keys_regions_by_id() {
    let mut raw = raw_model();
    raw.regions.push(region("Etruria", &["gaul"]));
    let (_, regions, _, _) = build_model(&config(false), raw).unwrap();
    let rids: Vec<&str> = regions.iter().map(|(k, _)| k.as_str()).collect();
    assert_eq!(rids, vec!["Etruria", "Gallia", "Apulia"]);
    assert_eq!(regions[0].1.hidden_resources, vec!["gaul"]);
}

#[test]
fn model_errors() {
    let mut raw = raw_model();
    raw.units.pop();
    assert!(matches!(build_model(&config(false), raw), Err(BuildError::UnknownRecruit)));
    let mut raw = raw_model();
    raw.buildings[0].req = Requires::Alias("nowhere".into());
    assert!(matches!(build_model(&config(false), raw), Err(BuildError::InvalidAlias)));
    let mut raw = raw_model();
    raw.pools[0].units[0].id = "nobody".into();
    assert!(matches!(build_model(&config(false), raw), Err(BuildError::UnknownPoolUnit)));
}

#[test]
fn unresolved_alias_fails_only_where_it_is_evaluated() {
    let mut raw = raw_model();
    raw.buildings[0].req = Requires::Alias("nowhere".into());
    raw.regions.clear();
    raw.strat.clear();
    raw.pools.clear();
    let (factions, regions, pools, aors) = build_model(&config(false), raw).unwrap();
    assert!(factions.is_empty());
    assert!(regions.is_empty());
    assert!(pools.is_empty());
    assert!(aors.is_empty());
    let mut raw = raw_model();
    raw.buildings[0].req = Requires::Alias("nowhere".into());
    raw.pools.clear();
    raw.strat.clear();
    assert!(matches!(build_model(&config(false), raw), Err(BuildError::InvalidAlias)));
}

#[test]
fn eras_named_after_their_id() {
    let e = era_of("early", None, None, None);
    assert_eq!(e.id, "early");
    assert_eq!(e.icon, "eras/early.png");
    assert_eq!(e.icoff, "eras/early-off.png");
    assert_eq!(e.name, "early");
    let e = era_of("late", Some("x/late.png".into()), Some("x/late_off.png".into()), Some("Late Era".into()));
    assert_eq!(e.id, "late");
    assert_eq!(e.icon, "x/late.png");
    assert_eq!(e.icoff, "x/late_off.png");
    assert_eq!(e.name, "Late Era");
}

#[test]
fn module_with_its_eras_in_order() {
    let model = build_model(&config(false), raw_model()).unwrap();
    let eras = vec![
        EraEntry { id: "marian".into(), icon: None, icoff: None, name: Some("Marian Reforms".into()) },
        EraEntry { id: "early".into(), icon: Some("e.png".into()), icoff: None, name: None },
    ];
    let m = build_module(
        "rtr".into(),
        "Rome: Total Realism".into(),
        "banner.png".into(),
        eras,
        vec![("rome".into(), "romans_julii".into())],
        model,
    );
    assert_eq!(m.id, "rtr");
    assert_eq!(m.name, "Rome: Total Realism");
    assert_eq!(m.banner, "banner.png");
    assert_eq!(m.factions.len(), 2);
    assert_eq!(m.regions.len(), 3);
    assert_eq!(m.aliases, vec![("rome".to_string(), "romans_julii".to_string())]);
    let ids: Vec<&str> = m.eras.iter().map(|(k, _)| k.as_str()).collect();
    assert_eq!(ids, vec!["marian", "early"]);
    assert_eq!(m.eras[0].1.name, "Marian Reforms");
    assert_eq!(m.eras[0].1.icon, "eras/marian.png");
    assert_eq!(m.eras[1].1.icon, "e.png");
    assert_eq!(m.eras[1].1.icoff, "eras/early-off.png");
    assert_eq!(m.eras[1].1.name, "early");
}

#[test]
fn unit_map_keeps_the_first_place_and_the_last_value() {
    let mut us = units();
    let mut again = units().remove(0);
    again.key = "Roman_Hastati_Late".into();
    us.push(again);
    let um = unit_map(us);
    let ids: Vec<&str> = um.iter().map(|u| u.id.as_str()).collect();
    assert_eq!(ids, vec!["roman hastati", "italian spearmen", "merc hoplites", "gallic horse"]);
    assert_eq!(um[0].key, "Roman_Hastati_Late");
    assert_eq!(um[1].key, "italian_spearmen");
}

#[test]
fn module_images_where_the_site_keeps_them() {
    let model = build_model(&config(false), raw_model()).unwrap();
    let eras = vec![EraEntry { id: "early".into(), icon: None, icoff: None, name: None }];
    let m = build_module("rtr".into(), "RTR".into(), "b.tga".into(), eras, vec![], model);
    let m = module_with_images(m);
    assert_eq!(m.banner, "/images/rtr/banner.webp");
    assert_eq!(m.name, "RTR");
    assert_eq!(m.factions[0].1.image, "/images/rtr/factions/gauls.webp");
    assert_eq!(m.factions[1].1.roster[0].image, format!("/images/rtr/units/romans_julii/{}.webp", m.factions[1].1.roster[0].key));
    assert_eq!(m.eras[0].1.icon, "/images/rtr/eras/eras/early.webp");
    assert_eq!(m.eras[0].1.icoff, "/images/rtr/eras/eras/early-off.webp");
    assert_eq!(m.eras[0].1.name, "early");
    assert_eq!(m.pools[0].units[0].unit.image, format!("/images/rtr/units/mercs/{}.webp", m.pools[0].units[0].unit.key));
}

#[test]
fn site_pages_in_order() {
    let model = build_model(&config(false), raw_model()).unwrap();
    let m = build_module("rtr".into(), "RTR".into(), "b.tga".into(), vec![], vec![], model);
    let alias = m.factions[1].1.alias.clone();
    assert_eq!(alias.as_deref(), Some("rome"));
    let routes = collect_routes(&vec![m]);
    let paths: Vec<&str> = routes.iter().map(|r| r.path.as_str()).collect();
    assert_eq!(
        paths,
        vec![
            "index.html",
            "404.html",
            "rtr/index.html",
            "rtr/mercenaries/index.html",
            "rtr/gauls/index.html",
            "rtr/romans_julii/index.html",
            "rtr/rome/index.html",
        ]
    );
    assert!(matches!(routes[0].route, SiteRoute::Home));
    assert!(matches!(routes[1].route, SiteRoute::NotFound));
    assert!(matches!(&routes[3].route, SiteRoute::Mercenaries { module } if module == "rtr"));
    assert_eq!(routes[5].redirect.as_deref(), Some("/rtr/rome"));
    assert!(matches!(&routes[6].route, SiteRoute::Faction { module, faction } if module == "rtr" && faction == "rome"));
    assert!(routes[4].redirect.is_none());
    assert_eq!(collect_routes(&vec![]).len(), 2);
}

#[test]
fn each_mercenary_portrait_drawn_once() {
    let (_, _, mut pools, _) = build_model(&config(false), raw_model()).unwrap();
    let (_, _, again, _) = build_model(&config(false), raw_model()).unwrap();
    let once: Vec<String> = pools[0].units.iter().map(|e| e.unit.id.clone()).collect();
    pools.extend(again);
    assert_eq!(mercenary_portraits(&pools), once);
    assert!(mercenary_portraits(&vec![]).is_empty());
}
