//! `descr_sm_factions.txt` of the original game: records that each begin
//! with a `faction` line.
use vstd::prelude::*;

use crate::chars::{before, before_char, clean_lines, clean_lines_of, eq_str, keyword_value, keyword_value_of, string_of, views};
use crate::parse::descr_sm_factions::{Faction, FactionView};
use crate::parse::ParseError;
use crate::records::{
    group_by_header, group_lines, group_views, leads_with, lemma_map_all_err, lemma_map_all_step,
    map_all, res_deep,
};

verus! {

/// A faction record read line by line: a `faction` line names it (the text
/// before the first comma), a `culture` line its culture and a
/// `loading_logo` line its logo; later lines override earlier ones, and a
/// line of these kinds without a value is refused.
pub open spec fn faction_lines(ls: Seq<Seq<char>>) -> Result<FactionView, ParseError>
    decreases ls.len(),
{
    if ls.len() == 0 {
        Ok(FactionView { id: seq![], name: seq![], culture: seq![], logo: seq![] })
    } else {
        match faction_lines(ls.drop_last()) {
            Err(e) => Err(e),
            Ok(f) => {
                let (k, v) = keyword_value(ls.last());
                if k == "faction"@ {
                    match v {
                        None => Err(ParseError::Missing("faction name")),
                        Some(s) => Ok(FactionView { id: before(s, ','), name: before(s, ','), ..f }),
                    }
                } else if k == "culture"@ {
                    match v {
                        None => Err(ParseError::Missing("value")),
                        Some(s) => Ok(FactionView { culture: s, ..f }),
                    }
                } else if k == "loading_logo"@ {
                    match v {
                        None => Err(ParseError::Missing("value")),
                        Some(s) => Ok(FactionView { logo: s, ..f }),
                    }
                } else {
                    Ok(f)
                }
            },
        }
    }
}

pub open spec fn faction_reader() -> spec_fn(Seq<Seq<char>>) -> Result<FactionView, ParseError> {
    |g: Seq<Seq<char>>| faction_lines(g)
}

/// The factions of a `descr_sm_factions.txt` text, in file order.
pub open spec fn faction_file(s: Seq<char>) -> Result<Seq<FactionView>, ParseError> {
    map_all(group_by_header(clean_lines(s), "faction"@), faction_reader())
}

fn parse_faction(lines: &Vec<Vec<char>>) -> (res: Result<Faction, ParseError>)
    ensures
        res_deep(res) == faction_lines(views(lines@)),
{
    let mut id: Vec<char> = Vec::new();
    let mut name: Vec<char> = Vec::new();
    let mut culture: Vec<char> = Vec::new();
    let mut logo: Vec<char> = Vec::new();
    let ghost all = views(lines@);
    let mut i: usize = 0;
    assert(all.take(0) =~= Seq::<Seq<char>>::empty());
    while i < lines.len()
        invariant
            0 <= i <= lines.len(),
            all == views(lines@),
            faction_lines(all.take(i as int)) == Ok::<FactionView, ParseError>(
                FactionView { id: id@, name: name@, culture: culture@, logo: logo@ },
            ),
        decreases lines.len() - i,
    {
        assert(all.take(i + 1).drop_last() =~= all.take(i as int));
        assert(all.take(i + 1).last() == lines@[i as int]@);
        let (k, v) = keyword_value_of(&lines[i]);
        if eq_str(&k, "faction") {
            match v {
                None => {
                    assert(faction_lines(all.take(i + 1)) is Err);
                    proof {
                        lemma_fold_err(all, i + 1);
                    }
                    return Err(ParseError::Missing("faction name"));
                },
                Some(s) => {
                    id = before_char(&s, ',');
                    name = before_char(&s, ',');
                },
            }
        } else if eq_str(&k, "culture") {
            match v {
                None => {
                    proof {
                        lemma_fold_err(all, i + 1);
                    }
                    return Err(ParseError::Missing("value"));
                },
                Some(s) => {
                    culture = s;
                },
            }
        } else if eq_str(&k, "loading_logo") {
            match v {
                None => {
                    proof {
                        lemma_fold_err(all, i + 1);
                    }
                    return Err(ParseError::Missing("value"));
                },
                Some(s) => {
                    logo = s;
                },
            }
        }
        i += 1;
    }
    assert(all.take(lines.len() as int) =~= all);
    Ok(
        Faction {
            id: string_of(&id),
            name: string_of(&name),
            culture: string_of(&culture),
            logo: string_of(&logo),
        },
    )
}

/// Once a prefix of a record's lines is refused, the record is refused with
/// the same error.
proof fn lemma_fold_err(ls: Seq<Seq<char>>, k: int)
    requires
        0 <= k <= ls.len(),
        faction_lines(ls.take(k)) is Err,
    ensures
        faction_lines(ls) == faction_lines(ls.take(k)),
    decreases ls.len() - k,
{
    if k < ls.len() {
        assert(ls.take(k + 1).drop_last() =~= ls.take(k));
        lemma_fold_err(ls, k + 1);
    } else {
        assert(ls.take(k) =~= ls);
    }
}

/// Reads the factions of a `descr_sm_factions.txt` text of the original
/// game: comments cut, lines trimmed and non-empty, grouped into records
/// that each begin with `faction`.
pub fn parse(data: &str) -> (res: Result<Vec<Faction>, ParseError>)
    requires
        leads_with(clean_lines(data@), "faction"@),
    ensures
        res_deep(res) == faction_file(data@),
{
    let ls = clean_lines_of(data);
    let gs = group_lines(ls, "faction");
    let ghost spec_gs = group_by_header(clean_lines(data@), "faction"@);
    let ghost f = faction_reader();
    let mut out: Vec<Faction> = Vec::new();
    let mut i: usize = 0;
    assert(spec_gs.take(0) =~= Seq::<Seq<Seq<char>>>::empty());
    assert(out.deep_view() =~= Seq::<FactionView>::empty());
    while i < gs.len()
        invariant
            0 <= i <= gs.len(),
            group_views(gs@) == spec_gs,
            spec_gs == group_by_header(clean_lines(data@), "faction"@),
            f == faction_reader(),
            map_all(spec_gs.take(i as int), f) == Ok::<_, ParseError>(out.deep_view()),
        decreases gs.len() - i,
    {
        proof {
            lemma_map_all_step(spec_gs, f, i as int);
        }
        assert(spec_gs[i as int] == views(gs@[i as int]@));
        assert(f(spec_gs[i as int]) == faction_lines(spec_gs[i as int]));
        match parse_faction(&gs[i]) {
            Err(e) => {
                proof {
                    lemma_map_all_err(spec_gs, f, i + 1, e);
                }
                return Err(e);
            },
            Ok(m) => {
                let ghost old = out.deep_view();
                out.push(m);
                assert(out.deep_view() =~= old.push(m.deep_view()));
            },
        }
        i += 1;
    }
    assert(spec_gs.take(gs.len() as int) =~= spec_gs);
    Ok(out)
}

} // verus!
