use faust::parse::descr_cultures;
use faust::parse::descr_model_battle;
use faust::parse::descr_mount::{self, MountClass};
use faust::parse::descr_regions;
use faust::parse::descr_sm_factions::og;
use faust::parse::descr_sm_factions::rr::{self, ProtoFaction};
use faust::parse::descr_strat;
use faust::parse::manifest::{default_banner, default_campaign, ParserMode};
use faust::parse::text::bin::decode_utf16;
use faust::parse::text::{decode_text_file, parse_bin, parse_txt};
use faust::parse::ParseError;
use faust::records::records_lead_with;

#[test]
fn cultures_default_is_first_culture_line() {
    let data = "; cultures\n\nculture roman ; the romans\nculture greek\n";
    assert_eq!(descr_cultures::parse(data, ParserMode::Original).unwrap(), "roman");
}

#[test]
fn cultures_without_culture_line_is_refused() {
    let r = descr_cultures::parse("faction x\n", ParserMode::Original);
    assert!(matches!(r, Err(ParseError::Missing("default culture"))));
}

#[test]
fn model_battle_reads_first_skeleton() {
    let data = "type roman_hastatus\nskeleton fs_spearman, fs_swordsman\n\ntype archer\nskeleton  fs_archer\n";
    assert!(records_lead_with(data, "type"));
    let ms = descr_model_battle::parse(data, ParserMode::Original).unwrap();
    assert_eq!(ms.len(), 2);
    assert_eq!(ms[0].0, "roman_hastatus");
    assert_eq!(ms[0].1.skeleton, "fs_spearman");
    assert_eq!(ms[1].1.id, "archer");
    assert_eq!(ms[1].1.skeleton, "fs_archer");
}

#[test]
fn model_battle_missing_skeleton() {
    let r = descr_model_battle::parse("type a\nmodel_flexi x\n", ParserMode::Original);
    assert!(matches!(r, Err(ParseError::KeyNotFound("skeleton"))));
}

#[test]
fn mount_reads_class_and_model() {
    let data = "type horse\nclass horse\nmodel horse_model\n\ntype elephant_cataphract\nclass elephant\nhorse_type x\n";
    let ms = descr_mount::parse(data, ParserMode::Original).unwrap();
    assert_eq!(ms.len(), 2);
    assert_eq!(ms[0].1.class, MountClass::Horse);
    assert_eq!(ms[0].1.model.as_deref(), Some("horse_model"));
    assert_eq!(ms[1].1.class, MountClass::Elephant);
    assert_eq!(ms[1].1.model, None);
    assert_eq!(ms[1].1.horse.as_deref(), Some("x"));
}

#[test]
fn mount_unknown_class_and_missing_class() {
    let ms = descr_mount::parse("type cart\nclass wagon\n", ParserMode::Original).unwrap();
    assert_eq!(ms[0].1.class, MountClass::Unknown);
    let r = descr_mount::parse("type cart\n", ParserMode::Original);
    assert!(matches!(r, Err(ParseError::KeyNotFound("class"))));
}

#[test]
fn regions_read_color_and_resources() {
    let data = "Etruria\n\tArretium\n\tromans_julii\n\tEtruscans\n\t120 0 7\n\trome, italy none\n\t5\n\t3\n";
    let rs = descr_regions::parse(data, ParserMode::Original).unwrap();
    assert_eq!(rs.len(), 1);
    assert_eq!(rs[0].id, "Etruria");
    assert_eq!(rs[0].city, "Arretium");
    assert_eq!(rs[0].legion, None);
    assert_eq!(rs[0].color, (120, 0, 7));
    // The list is split at each comma and space: ", " leaves an empty name.
    assert_eq!(rs[0].hidden_resources, vec!["rome".to_string(), "".to_string(), "italy".to_string()]);
}

#[test]
fn regions_read_legion_line() {
    let data = "Etruria\n\tArretium\n\tlegion: III Italica\n\tromans_julii\n\tEtruscans\n\t1 2 3\n\tnone\n";
    let rs = descr_regions::parse(data, ParserMode::Original).unwrap();
    assert_eq!(rs[0].legion.as_deref(), Some("legion: III Italica"));
    assert_eq!(rs[0].color, (1, 2, 3));
    assert!(rs[0].hidden_resources.is_empty());
}

#[test]
fn legion_line_changes_one_region() {
    let before = "Etruria\n\tArretium\n\tromans_julii\n\tEtruscans\n\t1 2 3\n\trome\n\
                  Gallia\n\tMassilia\n\tgauls\n\tGauls\n\t4 5 6\n\tnone\n";
    let after = "Etruria\n\tArretium\n\tromans_julii\n\tEtruscans\n\t1 2 3\n\trome\n\
                 Gallia\n\tlegion: Legio_I\n\tMassilia\n\tgauls\n\tGauls\n\t4 5 6\n\tnone\n";
    let rs = descr_regions::parse(before, ParserMode::Original).unwrap();
    let rs2 = descr_regions::parse(after, ParserMode::Original).unwrap();
    assert_eq!(rs2.len(), rs.len());
    assert_eq!(rs2[0].id, rs[0].id);
    assert_eq!(rs2[0].legion, rs[0].legion);
    assert_eq!(rs2[0].city, rs[0].city);
    assert_eq!(rs2[0].color, rs[0].color);
    assert_eq!(rs2[0].hidden_resources, rs[0].hidden_resources);
    assert_eq!(rs2[1].id, "Gallia");
    assert_eq!(rs2[1].city, "Massilia");
    assert_eq!(rs2[1].color, (4, 5, 6));
    assert!(rs2[1].hidden_resources.is_empty());
    assert_eq!(rs[1].legion, None);
    assert_eq!(rs2[1].legion.as_deref(), Some("legion: Legio_I"));
}

#[test]
fn regions_bad_color_is_refused() {
    let data = "Etruria\n\tArretium\n\tromans_julii\n\tEtruscans\n\t300 0 7\n\trome\n";
    assert!(matches!(
        descr_regions::parse(data, ParserMode::Original),
        Err(ParseError::InvalidNumber("color"))
    ));
    let short = "Etruria\n\tArretium\n";
    assert!(matches!(
        descr_regions::parse(short, ParserMode::Original),
        Err(ParseError::Missing("color line"))
    ));
}

#[test]
fn og_factions_read_name_culture_logo() {
    let data = "faction romans_julii, spartan\nculture roman\nloading_logo data/julii.tga\n\nfaction gauls\nculture barbarian\nloading_logo data/gauls.tga\n";
    let fs = og::parse(data).unwrap();
    assert_eq!(fs.len(), 2);
    assert_eq!(fs[0].id, "romans_julii");
    assert_eq!(fs[0].name, "romans_julii");
    assert_eq!(fs[0].culture, "roman");
    assert_eq!(fs[0].logo, "data/julii.tga");
    assert_eq!(fs[1].id, "gauls");
}

#[test]
fn og_faction_line_without_value_is_refused() {
    assert!(matches!(og::parse("faction x\nculture\n"), Err(ParseError::Missing("value"))));
}

#[test]
fn rr_json5_text_turns_brackets_into_braces() {
    let data = "factions: [ ; list\n  romans: { string: \"Rome\" },\n]\n";
    let doc = rr::json5_text(data).unwrap();
    assert_eq!(doc, "{factions: {\nromans: { string: \"Rome\" },\n}}");
    assert!(matches!(rr::json5_text("factions: {}"), Err(ParseError::Missing("["))));
}

#[test]
fn rr_factions_from_entries() {
    let ok = ProtoFaction {
        id: "romans".into(),
        string: Some("Rome".into()),
        culture: Some("roman".into()),
        loading_screen_icon: Some("icon.tga".into()),
        logo_index: None,
    };
    let fs = rr::factions_from(vec![ok]).unwrap();
    assert_eq!(fs[0].name, "Rome");
    assert_eq!(fs[0].logo, "icon.tga");
    let bad = ProtoFaction {
        id: "x".into(),
        string: Some("X".into()),
        culture: None,
        loading_screen_icon: None,
        logo_index: None,
    };
    assert!(matches!(rr::factions_from(vec![bad]), Err(ParseError::Missing("culture"))));
}

#[test]
fn strat_numbers_the_listed_factions() {
    let data = "campaign x\nplayable\n\tromans_julii\n\tgauls ; c\nend\nnonplayable\n\tslave\nend\nregion y\n";
    let es = descr_strat::parse(data, ParserMode::Original).unwrap();
    assert_eq!(
        es,
        vec![("romans_julii".to_string(), 0), ("gauls".to_string(), 1), ("slave".to_string(), 2)]
    );
}

#[test]
fn txt_table_tags_and_values() {
    let data = "\u{ac} comment\n{Roman_Hastati}Hastati\n{Desc}First line\nsecond line ; cut\n";
    let ps = parse_txt(data, ParserMode::Original).unwrap();
    assert_eq!(ps.len(), 2);
    assert_eq!(ps[0], ("{Roman_Hastati".to_string(), "Hastati".to_string()));
    assert_eq!(ps[1], ("{Desc".to_string(), "First line\nsecond line".to_string()));
}

#[test]
fn txt_entry_without_brace_is_refused() {
    assert!(matches!(parse_txt("{Tag without end\n", ParserMode::Original), Err(ParseError::Missing("value"))));
}

fn utf16(s: &str) -> Vec<u8> {
    let units: Vec<u16> = s.encode_utf16().collect();
    let mut b = (units.len() as u16).to_le_bytes().to_vec();
    for u in units {
        b.extend_from_slice(&u.to_le_bytes());
    }
    b
}

#[test]
fn bin_table_lowercases_tags() {
    let mut b = vec![2, 0, 0, 8];
    b.extend_from_slice(&1u32.to_le_bytes());
    b.extend(utf16("Roman_HASTATI"));
    b.extend(utf16("Hastati \u{e9}"));
    let ps = parse_bin(&b, ParserMode::Medieval2).unwrap();
    assert_eq!(ps, vec![("roman_hastati".to_string(), "Hastati \u{e9}".to_string())]);
}

#[test]
fn bin_table_errors() {
    assert!(matches!(parse_bin(&[1, 0, 0, 0, 0, 0, 0, 0], ParserMode::Medieval2), Err(ParseError::Invalid("strings.bin"))));
    let mut b = vec![2, 0, 0, 8];
    b.extend_from_slice(&1u32.to_le_bytes());
    b.extend_from_slice(&[5, 0, 65]);
    assert!(matches!(parse_bin(&b, ParserMode::Medieval2), Err(ParseError::Missing("bytes"))));
}

#[test]
fn manifest_defaults() {
    assert_eq!(default_campaign(), "imperial_campaign");
    assert_eq!(default_banner(), "faust/banner.png");
    assert!(ParserMode::default() == ParserMode::Remastered);
}

#[test]
fn utf16_decoding() {
    let units: Vec<u16> = "aé€😀".encode_utf16().collect();
    assert_eq!(decode_utf16(&units).into_iter().collect::<String>(), "aé€😀");
    assert_eq!(decode_utf16(&vec![0x61, 0xD800, 0x62]).into_iter().collect::<String>(), "a\u{FFFD}b");
    assert_eq!(decode_utf16(&vec![0xDC00, 0xD83D]).into_iter().collect::<String>(), "\u{FFFD}\u{FFFD}");
    let bytes = [0xFF, 0xFE, 0x68, 0x00, 0xFF, 0xFE, 0x69, 0x00, 0x21];
    assert_eq!(decode_text_file(&bytes), "hi\u{FFFD}");
    assert_eq!(decode_text_file(&[]), "");
}
