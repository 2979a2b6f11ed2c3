use faust::parse::export_descr_buildings::requirement::Parser;
use faust::parse::export_descr_buildings::{self as edb, Cmp, DipStatus, Requires};
use faust::parse::manifest::ParserMode;
use faust::parse::ParseError;

fn req(s: &str) -> Requires {
    Parser::parse(s).unwrap()
}

#[test]
fn requirement_factions_list() {
    match req("requires factions { romans_julii, gauls, }") {
        Requires::Factions(fs) => assert_eq!(fs, vec!["romans_julii".to_string(), "gauls".to_string()]),
        r => panic!("unexpected {r:?}"),
    }
    match req("requires building_factions {a,b}") {
        Requires::BuildingFactions(fs) => assert_eq!(fs, vec!["a".to_string(), "b".to_string()]),
        r => panic!("unexpected {r:?}"),
    }
}

#[test]
fn requirement_and_binds_closer_than_or() {
    match req("requires port or resource iron and not hidden_resource rome factionwide") {
        Requires::Or(items) => {
            assert_eq!(items.len(), 2);
            assert!(matches!(items[0], Requires::Port));
            match &items[1] {
                Requires::And(parts) => {
                    assert_eq!(parts.len(), 2);
                    assert!(matches!(&parts[0], Requires::Resource { id, factionwide: false } if id == "iron"));
                    match &parts[1] {
                        Requires::Not(x) => assert!(
                            matches!(&**x, Requires::HiddenResource { id, factionwide: true } if id == "rome")
                        ),
                        r => panic!("unexpected {r:?}"),
                    }
                },
                r => panic!("unexpected {r:?}"),
            }
        },
        r => panic!("unexpected {r:?}"),
    }
}

#[test]
fn requirement_buildings_and_flags() {
    assert!(matches!(
        req("requires building_present barracks queued"),
        Requires::BuildingPresent { ref id, level: None, queued: true, factionwide: false } if id == "barracks"
    ));
    assert!(matches!(
        req("requires building_present_min_level temple temple_2 factionwide queued"),
        Requires::BuildingPresent { ref id, level: Some(ref l), queued: true, factionwide: true } if id == "temple" && l == "temple_2"
    ));
    assert!(matches!(
        req("requires no_building_tagged pagan"),
        Requires::NoBuildingTagged { ref tag, queued: false, factionwide: false } if tag == "pagan"
    ));
}

#[test]
fn requirement_events_and_numbers() {
    assert!(matches!(req("requires major_event \"marian_reforms\""), Requires::MajorEvent(ref e) if e == "marian_reforms"));
    assert!(matches!(req("requires event_counter gunpowder 1.5"), Requires::EventCount { ref event, count: 2 } if event == "gunpowder"));
    assert!(matches!(req("requires region_religion catholic 50"), Requires::Religion { cmp: Cmp::Ge, amount: 50, .. }));
    assert!(matches!(req("requires religion catholic <= 30"), Requires::Religion { cmp: Cmp::Le, amount: 30, .. }));
    assert!(matches!(req("requires capability recruits_exp 2"), Requires::Capability { amount: 2, .. }));
    assert!(matches!(req("requires diplomatic_stance at_war papal_states"), Requires::Diplomacy { status: DipStatus::AtWar, ref faction } if faction == "papal_states"));
    assert!(matches!(req("requires is_toggled x"), Requires::IsToggled(ref t) if t == "x"));
    assert!(matches!(req("requires majority_religion norse"), Requires::MajorityReligion(ref t) if t == "norse"));
    assert!(matches!(req("requires is_player"), Requires::IsPlayer));
    assert!(matches!(req("requires official_religion"), Requires::OfficialReligion));
}

#[test]
fn requirement_aliases_and_unknown() {
    assert!(matches!(req("requires marian_reforms"), Requires::Alias(ref a) if a == "marian_reforms"));
    assert!(matches!(req("requires some_condition 1 2"), Requires::Unknown));
}

#[test]
fn requirement_errors() {
    assert!(matches!(Parser::parse("factions { a, }"), Err(ParseError::Invalid("requirement"))));
    assert!(matches!(Parser::parse("requires resource"), Err(ParseError::Invalid("requirement"))));
    assert!(matches!(Parser::parse("requires event_counter x y"), Err(ParseError::InvalidNumber("requirement amount"))));
    assert!(matches!(Parser::parse("requires diplomatic_stance friends x"), Err(ParseError::Invalid("diplomacy status"))));
    assert!(matches!(Parser::parse("requires religion x == 3"), Err(ParseError::Invalid("comparison operator"))));
    assert!(matches!(Parser::parse("requires port and"), Err(ParseError::Invalid("requirement"))));
}

#[test]
fn cmp_and_status_from_str() {
    assert!(matches!(Cmp::from_str(">="), Ok(Cmp::Ge)));
    assert!(matches!(Cmp::from_str("<"), Ok(Cmp::Lt)));
    assert!(Cmp::from_str("=").is_err());
    assert!(matches!(DipStatus::from_str("same_superfaction"), Ok(DipStatus::SameSuperfaction)));
    let e = DipStatus::from_str("war").unwrap_err();
    assert_eq!(e.message(), "invalid diplomacy status");
    let e = Cmp::from_str("!").unwrap_err();
    assert_eq!(e.message(), "invalid comparation operator");
}

const FILE: &str = "\
tags
{
    tag_a
    {
    }
}
alias rome_only
{
    requires factions { romans_julii, }
}
alias rome_only
{
    requires factions { romans_brutii, }
}
building barracks
{
    levels militia_barracks city_barracks
    {
        militia_barracks requires rome_only
        {
            capability
            {
                recruit \"roman hastati\" 0 requires factions { romans_julii, }
                recruit \"roman velites\" 1.5
                agent spy 0
            }
            settlement_min town
        }
        city_barracks
        {
            capability
            {
                recruit \"roman principes\" 0
            }
        }
    }
}
";

#[test]
fn buildings_file_levels_and_aliases() {
    let (aliases, bs) = edb::parse(FILE, ParserMode::Original).unwrap();
    assert_eq!(aliases.len(), 2);
    assert_eq!(aliases[0].0, "marian_reforms");
    assert!(matches!(aliases[0].1, Requires::MajorEvent(ref e) if e == "marian_reforms"));
    assert_eq!(aliases[1].0, "rome_only");
    match &aliases[1].1 {
        Requires::Factions(fs) => assert_eq!(fs, &vec!["romans_brutii".to_string()]),
        r => panic!("unexpected {r:?}"),
    }
    assert_eq!(bs.len(), 2);
    assert!(matches!(bs[0].req, Requires::Alias(ref a) if a == "rome_only"));
    assert_eq!(bs[0].min, "town");
    assert_eq!(bs[0].caps.len(), 2);
    assert_eq!(bs[0].caps[0].unit, "roman hastati");
    assert_eq!(bs[0].caps[0].exp, 0);
    assert!(matches!(bs[0].caps[0].req, Requires::Factions(_)));
    assert_eq!(bs[0].caps[1].unit, "roman velites");
    assert_eq!(bs[0].caps[1].exp, 2);
    assert!(matches!(bs[0].caps[1].req, Requires::Nothing));
    assert!(matches!(bs[1].req, Requires::Nothing));
    assert_eq!(bs[1].min, "village");
    assert_eq!(bs[1].caps[0].unit, "roman principes");
}

#[test]
fn medieval_aliases_start_empty_and_pools_recruit() {
    let data = "building b\n{\n levels l\n {\n  l city requires port\n  {\n   capability\n   {\n    recruit_pool \"Spear Militia\" 1 0.5 4 0 requires is_player\n   }\n  }\n }\n}\n";
    let (aliases, bs) = edb::parse(data, ParserMode::Medieval2).unwrap();
    assert!(aliases.is_empty());
    assert!(matches!(bs[0].req, Requires::Port));
    assert_eq!(bs[0].caps[0].unit, "Spear Militia");
    assert_eq!(bs[0].caps[0].exp, 0);
    assert!(matches!(bs[0].caps[0].req, Requires::IsPlayer));
    assert!(matches!(edb::parse(data, ParserMode::Original), Err(ParseError::Invalid("requirement"))));
    let rome_data = data.replace("l city requires port", "l requires port");
    let (_, rome) = edb::parse(&rome_data, ParserMode::Original).unwrap();
    assert!(matches!(rome[0].req, Requires::Port));
    assert!(rome[0].caps.is_empty());
}

#[test]
fn buildings_file_errors() {
    assert!(matches!(edb::parse("alias\n{\n requires port\n}\n", ParserMode::Original), Err(ParseError::Missing("alias name"))));
    assert!(matches!(edb::parse("alias a\n{\n port\n}\n", ParserMode::Original), Err(ParseError::Missing("requires line"))));
    assert!(matches!(edb::parse("alias a\n{\n requires port\n", ParserMode::Original), Err(ParseError::Invalid("block"))));
    let bad_level = "building b\n{\n levels l\n {\n  m\n  {\n  }\n }\n}\n";
    assert!(matches!(edb::parse(bad_level, ParserMode::Original), Err(ParseError::Invalid("unexpected line in levels"))));
    let bad_unit = "building b\n{\n levels l\n {\n  l\n  {\n   capability\n   {\n    recruit hastati 0\n   }\n  }\n }\n}\n";
    assert!(matches!(edb::parse(bad_unit, ParserMode::Original), Err(ParseError::Invalid("missing quotes around unit"))));
    let bad_exp = "building b\n{\n levels l\n {\n  l\n  {\n   capability\n   {\n    recruit \"x\" y\n   }\n  }\n }\n}\n";
    assert!(matches!(edb::parse(bad_exp, ParserMode::Original), Err(ParseError::InvalidNumber("exp"))));
    let no_min = "building b\n{\n levels l\n {\n  l\n  {\n   settlement_min\n  }\n }\n}\n";
    assert!(matches!(edb::parse(no_min, ParserMode::Original), Err(ParseError::Missing("settlement_min"))));
}

#[test]
fn alias_names_stay_unique() {
    let (aliases, _) = edb::parse(FILE, ParserMode::Remastered).unwrap();
    for i in 0..aliases.len() {
        for j in i + 1..aliases.len() {
            assert_ne!(aliases[i].0, aliases[j].0);
        }
    }
}
