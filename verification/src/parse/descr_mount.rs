//! `descr_mount.txt`: the mounts that units ride.
use vstd::prelude::*;

use crate::chars::{clean_lines, clean_lines_of, eq_str, string_of, views};
use crate::parse::manifest::ParserMode;
use crate::parse::ParseError;
use crate::records::{
    entries_of, entries_view, group_by_header, group_lines, group_views, leads_with, line_value,
    lemma_map_all_err, lemma_map_all_step, map_all, opt_string, opt_view, record_entries,
    res_deep, value_of,
};

verus! {

/// What kind of animal (or vehicle) a mount is.
#[derive(Debug, Clone, Copy, PartialEq, Eq, Structural)]
pub enum MountClass {
    Horse,
    Camel,
    Elephant,
    Chariot,
    Unknown,
}

/// A mount type.
#[derive(Debug)]
pub struct Mount {
    pub id: String,
    pub class: MountClass,
    pub model: Option<String>,
    pub horse: Option<String>,
}

pub struct MountView {
    pub id: Seq<char>,
    pub class: MountClass,
    pub model: Option<Seq<char>>,
    pub horse: Option<Seq<char>>,
}

impl DeepView for Mount {
    type V = MountView;

    open spec fn deep_view(&self) -> MountView {
        MountView {
            id: self.id@,
            class: self.class,
            model: self.model.deep_view(),
            horse: self.horse.deep_view(),
        }
    }
}

/// The class that a `class` value names.
pub open spec fn class_of(s: Seq<char>) -> MountClass {
    if s == "horse"@ {
        MountClass::Horse
    } else if s == "camel"@ {
        MountClass::Camel
    } else if s == "elephant"@ {
        MountClass::Elephant
    } else if s == "chariot"@ {
        MountClass::Chariot
    } else {
        MountClass::Unknown
    }
}

/// Each class keyword reads as the class of that name: `horse` a horse,
/// `camel` a camel, `elephant` an elephant and `chariot` a chariot; any
/// other word an unknown class.
pub proof fn law_mount_classes(s: Seq<char>)
    ensures
        class_of("horse"@) == MountClass::Horse,
        class_of("camel"@) == MountClass::Camel,
        class_of("elephant"@) == MountClass::Elephant,
        class_of("chariot"@) == MountClass::Chariot,
        s != "horse"@ && s != "camel"@ && s != "elephant"@ && s != "chariot"@ ==> class_of(s)
            == MountClass::Unknown,
{
    reveal_strlit("horse");
    reveal_strlit("camel");
    reveal_strlit("elephant");
    reveal_strlit("chariot");
    assert("camel"@ != "horse"@) by {
        assert("camel"@[0] != "horse"@[0]);
    }
    assert("elephant"@ != "horse"@) by {
        assert("elephant"@.len() != "horse"@.len());
    }
    assert("elephant"@ != "camel"@) by {
        assert("elephant"@.len() != "camel"@.len());
    }
    assert("chariot"@ != "horse"@) by {
        assert("chariot"@.len() != "horse"@.len());
    }
    assert("chariot"@ != "camel"@) by {
        assert("chariot"@.len() != "camel"@.len());
    }
    assert("chariot"@ != "elephant"@) by {
        assert("chariot"@.len() != "elephant"@.len());
    }
}

/// A mount record: its `type` (the id), `class`, `model` and `horse_type`.
pub open spec fn mount_of(g: Seq<Seq<char>>) -> Result<(Seq<char>, MountView), ParseError> {
    let es = record_entries(g);
    match line_value(es, "type"@) {
        None => Err(ParseError::KeyNotFound("type")),
        Some(id) => match line_value(es, "class"@) {
            None => Err(ParseError::KeyNotFound("class")),
            Some(c) => Ok(
                (
                    id,
                    MountView {
                        id,
                        class: class_of(c),
                        model: line_value(es, "model"@),
                        horse: line_value(es, "horse_type"@),
                    },
                ),
            ),
        },
    }
}

/// The mounts of a `descr_mount.txt` text, keyed by id, in file order.
pub open spec fn mount_file(s: Seq<char>) -> Result<Seq<(Seq<char>, MountView)>, ParseError> {
    map_all(group_by_header(clean_lines(s), "type"@), mount_reader())
}

pub open spec fn mount_reader() -> spec_fn(Seq<Seq<char>>) -> Result<(Seq<char>, MountView), ParseError> {
    |g: Seq<Seq<char>>| mount_of(g)
}

fn parse_class(s: &Vec<char>) -> (c: MountClass)
    ensures
        c == class_of(s@),
{
    if eq_str(s, "horse") {
        MountClass::Horse
    } else if eq_str(s, "camel") {
        MountClass::Camel
    } else if eq_str(s, "elephant") {
        MountClass::Elephant
    } else if eq_str(s, "chariot") {
        MountClass::Chariot
    } else {
        MountClass::Unknown
    }
}

fn parse_mount(lines: &Vec<Vec<char>>) -> (res: Result<(String, Mount), ParseError>)
    ensures
        res_deep(res) == mount_of(views(lines@)),
{
    let es = entries_of(lines);
    let id = match value_of(&es, "type") {
        None => return Err(ParseError::KeyNotFound("type")),
        Some(v) => v,
    };
    let class = match value_of(&es, "class") {
        None => return Err(ParseError::KeyNotFound("class")),
        Some(v) => parse_class(&v),
    };
    let model = opt_string(value_of(&es, "model"));
    let horse = opt_string(value_of(&es, "horse_type"));
    Ok((string_of(&id), Mount { id: string_of(&id), class, model, horse }))
}

/// Reads the mounts of a `descr_mount.txt` text: comments cut, lines trimmed
/// and non-empty, grouped into records that each begin with a `type` line.
pub fn parse(data: &str, _mode: ParserMode) -> (res: Result<Vec<(String, Mount)>, ParseError>)
    requires
        leads_with(clean_lines(data@), "type"@),
    ensures
        res_deep(res) == mount_file(data@),
{
    let ls = clean_lines_of(data);
    let gs = group_lines(ls, "type");
    let ghost spec_gs = group_by_header(clean_lines(data@), "type"@);
    let ghost f = mount_reader();
    let mut out: Vec<(String, Mount)> = Vec::new();
    let mut i: usize = 0;
    assert(spec_gs.take(0) =~= Seq::<Seq<Seq<char>>>::empty());
    assert(out.deep_view() =~= Seq::<(Seq<char>, MountView)>::empty());
    while i < gs.len()
        invariant
            0 <= i <= gs.len(),
            group_views(gs@) == spec_gs,
            spec_gs == group_by_header(clean_lines(data@), "type"@),
            f == mount_reader(),
            map_all(spec_gs.take(i as int), f) == Ok::<_, ParseError>(out.deep_view()),
        decreases gs.len() - i,
    {
        proof {
            lemma_map_all_step(spec_gs, f, i as int);
        }
        assert(spec_gs[i as int] == views(gs@[i as int]@));
        assert(f(spec_gs[i as int]) == mount_of(spec_gs[i as int]));
        match parse_mount(&gs[i]) {
            Err(e) => {
                proof {
                    lemma_map_all_err(spec_gs, f, i + 1, e);
                }

                return Err(e);
            },
            Ok(m) => {
                let ghost old = out.deep_view();
                out.push(m);
                assert(out.deep_view() =~= old.push(m.deep_view()));
            },
        }
        i += 1;
    }
    assert(spec_gs.take(gs.len() as int) =~= spec_gs);
    Ok(out)
}

} // verus!
