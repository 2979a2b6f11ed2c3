use faust::chars::to_lowercase;
use faust::numbers::{is_float_chars, parse_maybe_float_int};
use faust::chars::chars_of;
use faust::parse::descr_regions::Region;
use faust::parse::descr_sm_factions::Faction;
use faust::parse::eval::{evaluate, Evaluator, EvaluatorChoices};
use faust::parse::export_descr_buildings::requirement::Parser;
use faust::parse::export_descr_buildings::{self as edb, Requires};
use faust::parse::manifest::ParserMode;
use faust::parse::model::{available_in_region, available_to_faction, build_tech_levels, require_no_events, tech_level};
use faust::parse::sd;
use faust::parse::utils::UpToTwo;
use faust::parse::ParseError;
use faust::render::renderer::{web_path, Preload, PreloadAs, PreloadType};

fn julii() -> Faction {
    Faction {
        id: "romans_julii".into(),
        name: "Julii".into(),
        culture: "roman".into(),
        logo: "julii.tga".into(),
    }
}

fn etruria() -> Region {
    Region {
        id: "Etruria".into(),
        legion: None,
        city: "Arretium".into(),
        color: (1, 2, 3),
        hidden_resources: vec!["rome".into(), "italy".into()],
    }
}

fn req(s: &str) -> Requires {
    Parser::parse(s).unwrap()
}

#[test]
fn faction_requirement_names_faction_culture_or_all() {
    let f = julii();
    let none = vec![];
    assert!(available_to_faction(&req("requires factions { romans_julii, }"), &f, &none));
    assert!(available_to_faction(&req("requires factions { roman, }"), &f, &none));
    assert!(available_to_faction(&req("requires factions { all, }"), &f, &none));
    assert!(!available_to_faction(&req("requires factions { gauls, }"), &f, &none));
    assert!(available_to_faction(&Requires::Factions(vec![]), &f, &none));
}

#[test]
fn region_hidden_resources() {
    let r = etruria();
    let none = vec![];
    assert!(available_in_region(&req("requires hidden_resource rome"), &r, None, &none));
    assert!(!available_in_region(&req("requires hidden_resource egypt"), &r, None, &none));
    assert!(available_in_region(&req("requires hidden_resource egypt factionwide"), &r, None, &none));
    assert!(available_in_region(&req("requires factions { gauls, }"), &r, None, &none));
}

#[test]
fn double_negation_changes_nothing() {
    let f = julii();
    let ev = Evaluator::faction(&f);
    let none = vec![];
    for text in ["factions { gauls, }", "factions { roman, }", "resource iron"] {
        let r = req(&format!("requires {text}"));
        let nn = Requires::Not(Box::new(Requires::Not(Box::new(req(&format!("requires {text}"))))));
        assert_eq!(evaluate(&nn, &none, &ev), evaluate(&r, &none, &ev));
    }
}

#[test]
fn de_morgan() {
    let ev = Evaluator::faction(&julii());
    let none = vec![];
    let and = req("requires factions { roman, } and factions { gauls, }");
    let not_and = Requires::Not(Box::new(req("requires factions { roman, } and factions { gauls, }")));
    let or_nots = req("requires not factions { roman, } or not factions { gauls, }");
    assert!(!evaluate(&and, &none, &ev));
    assert_eq!(evaluate(&not_and, &none, &ev), evaluate(&or_nots, &none, &ev));
    assert!(evaluate(&or_nots, &none, &ev));
}

#[test]
fn aliases_and_undecided_requirements() {
    let ev = Evaluator::faction(&julii());
    let (aliases, _) = edb::parse("alias gallic\n{\n requires factions { gauls, }\n}\n", ParserMode::Original).unwrap();
    assert!(!evaluate(&req("requires gallic"), &aliases, &ev));
    assert!(evaluate(&req("requires not gallic"), &aliases, &ev));
    assert!(evaluate(&req("requires port"), &aliases, &ev));
    assert!(evaluate(&req("requires marian_reforms"), &aliases, &ev));
    assert!(!evaluate(&Requires::False, &aliases, &ev));
    let events = Evaluator {
        default: None,
        faction: None,
        resource: None,
        hidden_resource: None,
        major_event: Some(EvaluatorChoices { map: vec![("marian_reforms".into(), false)], default: None }),
    };
    assert!(!evaluate(&req("requires marian_reforms"), &aliases, &events));
    assert!(evaluate(&require_no_events(&vec!["marian_reforms".to_string()]), &aliases, &events));
}

#[test]
fn tech_levels_keep_the_lowest() {
    assert_eq!(tech_level("village"), 0);
    assert_eq!(tech_level("huge_city"), 5);
    assert_eq!(tech_level("metropolis"), 99);
    let data = "\
building a
{
    levels big small
    {
        big
        {
            capability
            {
                recruit \"hastati\" 0
                recruit \"velites\" 0
            }
            settlement_min large_city
        }
        small
        {
            capability
            {
                recruit \"hastati\" 0
            }
            settlement_min town
        }
    }
}
";
    let (_, bs) = edb::parse(data, ParserMode::Original).unwrap();
    let levels = build_tech_levels(&bs);
    assert_eq!(levels, vec![("hastati".to_string(), 1), ("velites".to_string(), 4)]);
}

#[test]
fn up_to_two_values() {
    assert_eq!(UpToTwo::Two(1, 2).push_to(vec![0]), vec![0, 1, 2]);
    assert_eq!(UpToTwo::One(5).to_vec(), vec![5]);
    assert_eq!(UpToTwo::<u8>::Zero.to_vec(), Vec::<u8>::new());
}

#[test]
fn preload_of_media_types() {
    let p = Preload::from(PreloadType::Woff2);
    assert!(p.preload_as == PreloadAs::Font && p.cors);
    let p = Preload::from(PreloadType::Png);
    assert!(p.preload_as == PreloadAs::Image && !p.cors);
    let p = Preload::from(PreloadType::Cbor);
    assert!(p.preload_as == PreloadAs::Fetch && p.cors);
    assert_eq!(PreloadType::Svg.text(), "image/svg+xml");
    assert_eq!(PreloadAs::Fetch.text(), "fetch");
}

#[test]
fn web_paths() {
    assert_eq!(web_path("styles/main.css"), "/styles/main.css");
    assert_eq!(web_path("a//b/./c"), "/a/b/c");
    assert_eq!(web_path(""), "");
}

#[test]
fn numbers_rounded_up() {
    assert_eq!(parse_maybe_float_int(&chars_of("12")), Some(12));
    assert_eq!(parse_maybe_float_int(&chars_of("0.2")), Some(1));
    assert_eq!(parse_maybe_float_int(&chars_of("3.0")), Some(3));
    assert_eq!(parse_maybe_float_int(&chars_of("x")), None);
    assert!(is_float_chars(&chars_of("-1.5e3")));
    assert!(is_float_chars(&chars_of("INF")));
    assert!(is_float_chars(&chars_of(".5")));
    assert!(!is_float_chars(&chars_of("1.2.3")));
    assert!(!is_float_chars(&chars_of("e5")));
}

#[test]
fn lowercase_wrapper() {
    assert_eq!(to_lowercase("Roman_HASTATI"), "roman_hastati");
}

fn sd_string(s: &str, nul: bool) -> Vec<u8> {
    let mut b = (s.len() as u32).to_le_bytes().to_vec();
    b.extend_from_slice(s.as_bytes());
    if nul {
        b.push(0);
    }
    b
}

fn sd_file(page_idx: u16, text: &str) -> Vec<u8> {
    let mut b = Vec::new();
    for n in [6u32, 1, 1] {
        b.extend_from_slice(&n.to_le_bytes());
    }
    b.extend(sd_string("page.tga", true));
    for n in [64u32, 32, 2] {
        b.extend_from_slice(&n.to_le_bytes());
    }
    b.extend_from_slice(&[0xff, 0xff]);
    b.extend(sd_string(text, false));
    for n in [page_idx, 1, 2, 3, 4] {
        b.extend_from_slice(&n.to_le_bytes());
    }
    b.extend_from_slice(&[0, 0]);
    b.extend_from_slice(&[0, 0, 0, 0]);
    b
}

#[test]
fn sprite_sheet_is_read() {
    let ss = sd::parse(&sd_file(0, "symbol_\u{e9}"), ParserMode::Original).unwrap();
    assert_eq!(ss.len(), 1);
    assert_eq!(ss[0].0, "symbol_\u{e9}");
    let s = &ss[0].1;
    assert_eq!(s.file, "page.tga");
    assert_eq!((s.left, s.right, s.top, s.bottom), (1, 2, 3, 4));
}

#[test]
fn sprite_sheet_errors() {
    assert!(matches!(sd::parse(&sd_file(3, "x"), ParserMode::Original), Err(ParseError::Invalid("sprite page"))));
    assert!(matches!(sd::parse(&[7, 0, 0, 0, 0, 0, 0, 0, 0, 0, 0, 0], ParserMode::Original), Err(ParseError::Invalid(".sd file"))));
    let mut bad = sd_file(0, "x");
    let at = bad.len() - 16 - 1;
    bad[at] = 0xff;
    assert!(matches!(sd::parse(&bad, ParserMode::Original), Err(ParseError::Invalid("utf-8"))));
    assert!(matches!(sd::parse(&[6, 0, 0], ParserMode::Original), Err(ParseError::Missing("bytes"))));
}

#[test]
fn float_or_int_in_every_float_form() {
    let f = |s: &str| parse_maybe_float_int(&chars_of(s));
    assert_eq!(f("7"), Some(7));
    assert_eq!(f("2.3"), Some(3));
    assert_eq!(f("abc"), None);
    assert_eq!(f("1e1"), Some(10));
    assert_eq!(f("1.5e2"), Some(150));
    assert_eq!(f("1E-3"), Some(1));
    assert_eq!(f("+4"), Some(4));
    assert_eq!(f("-0.5"), Some(0));
    assert_eq!(f("-1.5"), None);
    assert_eq!(f(".5"), Some(1));
    assert_eq!(f("5."), Some(5));
    assert_eq!(f("0.000"), Some(0));
    assert_eq!(f("1e400"), None);
    assert_eq!(f("0e99999999999999999999999"), Some(0));
    assert_eq!(f("1e-99999999999999999999999"), Some(0));
    assert_eq!(f("-1e-99999999999999999999999"), Some(0));
    assert_eq!(f("4294967294.5"), Some(4294967295));
    assert_eq!(f("4294967295.5"), None);
    assert_eq!(f("12345678901e-1"), Some(1234567891));
    assert_eq!(f("0.00042949672950e13"), Some(4294967295));
    assert_eq!(f("inf"), None);
    assert_eq!(f("NaN"), None);
    assert_eq!(f("1e"), None);
}

#[test]
fn float_form_integers_round_up_the_double() {
    let f = |s: &str| parse_maybe_float_int(&chars_of(s));
    // Each of these reads as a double that is a whole number.
    assert_eq!(f("2.0000000000000001"), Some(2));
    assert_eq!(f("1e-400"), Some(0));
    assert_eq!(f("4294967295.0000001"), Some(4294967295));
    assert_eq!(f("-0.99999999999999999"), None);
    // Exactly half way between 1 and the next double: ties go to 1.
    assert_eq!(f("1.00000000000000011102230246251565404236316680908203125"), Some(1));
    assert_eq!(f("1.00000000000000011102230246251565404236316680908203126"), Some(2));
    assert_eq!(f("1.0000000000000003"), Some(2));
    assert_eq!(f("2.5e-324"), Some(1));
    assert_eq!(f("2.4e-324"), Some(0));
    assert_eq!(f("-0.99999999999999994"), Some(0));
    // A double check against the standard library's own reading.
    for s in ["0.3", "7.0000001", "99.99999999999999", "99.999999999999999", "1e-5", "3.5e3", "65535.00000000001"] {
        let want = s.parse::<f64>().unwrap().ceil() as u32;
        assert_eq!(f(s), Some(want), "{s}");
    }
}

#[test]
fn aliases_and_unknown_parts_in_evaluation() {
    let ev = Evaluator::faction(&julii());
    let aliases = vec![("is_gaul".to_string(), req("requires factions { gauls, }"))];
    let alias = Requires::Alias("is_gaul".into());
    assert_eq!(evaluate(&alias, &aliases, &ev), evaluate(&aliases[0].1, &aliases, &ev));
    assert!(!evaluate(&alias, &aliases, &ev));
    // A part that nothing decides is left out of `and` and `or`.
    let unknown = Requires::MajorEvent("marius".into());
    assert!(!evaluate(&Requires::And(vec![Requires::MajorEvent("marius".into()), Requires::False]), &aliases, &ev));
    assert!(evaluate(&Requires::And(vec![unknown]), &aliases, &ev));
    assert!(!evaluate(&Requires::Or(vec![Requires::MajorEvent("marius".into()), Requires::False]), &aliases, &ev));
    assert!(evaluate(&Requires::Or(vec![Requires::MajorEvent("marius".into()), Requires::IsPlayer]), &aliases, &ev));
    // Factions that the evaluator does not know leave the list undecided.
    assert!(evaluate(&Requires::Factions(vec!["seleucids".into()]), &aliases, &Evaluator::default()));
}
