//! The language of requirements, as they follow the word `requires` in
//! `export_descr_buildings.txt`.
//!
//! A requirement is read as a list of tokens: each of `{`, `}` and `,`
//! alone, and the words between them and white space. After the leading
//! `requires`, `or` separates alternatives and, within each, `and`
//! separates conditions, so that `and` binds closer than `or`. A condition
//! is a primary condition, or `not` followed by one:
//!
//! - `factions { a, b, }` and `building_factions { a, b, }`
//! - `resource ID [factionwide]`, `hidden_resource ID [factionwide]`
//! - `building_present ID FLAGS`, `building_present_min_level ID LEVEL FLAGS`,
//!   `no_building_tagged TAG FLAGS`, where the flags are any of `queued` and
//!   `factionwide`
//! - `major_event "EVENT"`, `event_counter EVENT COUNT`, `is_toggled ID`
//! - `port`, `is_player`, `official_religion`
//! - `diplomatic_stance STATUS FACTION`
//! - `religion ID OP AMOUNT`, `region_religion ID AMOUNT`,
//!   `majority_religion ID`
//! - `capability ID AMOUNT`
//! - any other word alone names an alias; any other word followed by more
//!   words is a condition the library does not know.
//!
//! Numbers are read as the game reads them: a decimal number rounded up.
use vstd::prelude::*;

use crate::chars::{find_sep, is_sep, is_whitespace, is_ws, sep_pos, subvec, views};
use crate::chars::string_of;
use crate::numbers::{maybe_float_int, parse_maybe_float_int};
use crate::parse::export_descr_buildings::{
    cmp_of, dip_status_of, req_view, reqs_view, res_req, Cmp, DipStatus, ReqView, Requires,
};
use crate::parse::ParseError;
use crate::records::{group_views, lemma_map_all_err, lemma_map_all_step, map_all};

verus! {

/// The characters that stand alone as tokens.
pub open spec fn is_punct(c: char) -> bool {
    c == '{' || c == '}' || c == ','
}

pub open spec fn punct() -> Seq<char> {
    seq!['{', '}', ',']
}

/// The tokens of a text: each of `{`, `}` and `,` alone, and the words
/// between them and white space.
pub open spec fn tokens(s: Seq<char>) -> Seq<Seq<char>>
    decreases s.len(),
{
    if s.len() == 0 {
        seq![]
    } else if is_ws(s[0]) {
        tokens(s.drop_first())
    } else if is_punct(s[0]) {
        seq![seq![s[0]]] + tokens(s.drop_first())
    } else {
        let n = sep_pos(s, punct(), true);
        if n == 0 {
            seq![]
        } else {
            proof {
                crate::chars::lemma_sep_pos_bound(s, punct(), true);
            }
            seq![s.take(n as int)] + tokens(s.skip(n as int))
        }
    }
}

/// The tokens split at each `sep` token: `k` separators give `k + 1`
/// groups, empty ones included.
pub open spec fn split_on(ts: Seq<Seq<char>>, sep: Seq<char>) -> Seq<Seq<Seq<char>>>
    decreases ts.len(),
{
    if ts.len() == 0 {
        seq![seq![]]
    } else {
        let g = split_on(ts.drop_last(), sep);
        if ts.last() == sep {
            g.push(seq![])
        } else {
            g.update(g.len() - 1, g.last().push(ts.last()))
        }
    }
}

pub proof fn lemma_split_on_len(ts: Seq<Seq<char>>, sep: Seq<char>)
    ensures
        split_on(ts, sep).len() >= 1,
    decreases ts.len(),
{
    if ts.len() > 0 {
        lemma_split_on_len(ts.drop_last(), sep);
    }
}

fn punct_chars() -> (r: Vec<char>)
    ensures
        r@ == punct(),
{
    let mut r: Vec<char> = Vec::new();
    r.push('{');
    r.push('}');
    r.push(',');
    assert(r@ =~= punct());
    r
}

fn is_punct_char(c: char) -> (b: bool)
    ensures
        b == is_punct(c),
{
    c == '{' || c == '}' || c == ','
}

proof fn lemma_sep_pos_punct(s: Seq<char>)
    requires
        s.len() > 0,
        !is_ws(s[0]),
        !is_punct(s[0]),
    ensures
        sep_pos(s, punct(), true) > 0,
{
    assert(!punct().contains(s[0])) by {
        if punct().contains(s[0]) {
            let k = choose|k: int| 0 <= k < punct().len() && punct()[k] == s[0];
            assert(k == 0 || k == 1 || k == 2);
        }
    }
    assert(!is_sep(s[0], punct(), true));
}

/// The tokens of a text.
pub fn tokenize(v: &Vec<char>) -> (r: Vec<Vec<char>>)
    ensures
        views(r@) == tokens(v@),
{
    let seps = punct_chars();
    let mut r: Vec<Vec<char>> = Vec::new();
    let mut i: usize = 0;
    assert(v@.skip(0) =~= v@);
    assert(views(r@) =~= Seq::<Seq<char>>::empty());
    while i < v.len()
        invariant
            0 <= i <= v.len(),
            seps@ == punct(),
            views(r@) + tokens(v@.skip(i as int)) == tokens(v@),
        decreases v.len() - i,
    {
        let ghost s = v@.skip(i as int);
        let ghost old = views(r@);
        assert(s[0] == v@[i as int]);
        let c = v[i];
        if is_whitespace(c) {
            assert(s.drop_first() =~= v@.skip(i + 1));
            i += 1;
        } else if is_punct_char(c) {
            assert(s.drop_first() =~= v@.skip(i + 1));
            let mut t: Vec<char> = Vec::new();
            t.push(c);
            r.push(t);
            assert(views(r@) =~= old.push(seq![c]));
            assert(tokens(s) == seq![seq![c]] + tokens(v@.skip(i + 1)));
            assert(views(r@) + tokens(v@.skip(i + 1)) =~= old + tokens(s));
            i += 1;
        } else {
            proof {
                lemma_sep_pos_punct(s);
            }
            let j = find_sep(v, i, &seps, true);
            let w = subvec(v, i, j);
            assert(w@ =~= s.take((j - i) as int));
            assert(s.skip((j - i) as int) =~= v@.skip(j as int));
            r.push(w);
            assert(views(r@) =~= old.push(w@));
            assert(tokens(s) == seq![w@] + tokens(v@.skip(j as int)));
            assert(views(r@) + tokens(v@.skip(j as int)) =~= old + tokens(s));
            i = j;
        }
    }
    assert(v@.skip(v.len() as int) =~= Seq::<char>::empty());
    assert(views(r@) + tokens(seq![]) =~= views(r@));
    r
}

/// Whether two tokens are equal.
fn same_token(a: &Vec<char>, b: &str) -> (r: bool)
    ensures
        r == (a@ == b@),
{
    crate::chars::eq_str(a, b)
}

/// The tokens split at each `sep` token.
pub fn split_tokens(ts: &Vec<Vec<char>>, sep: &str) -> (r: Vec<Vec<Vec<char>>>)
    ensures
        crate::records::group_views(r@) == split_on(views(ts@), sep@),
{
    let mut r: Vec<Vec<Vec<char>>> = Vec::new();
    r.push(Vec::new());
    let mut i: usize = 0;
    assert(crate::records::group_views(r@) =~= split_on(views(ts@).take(0), sep@)) by {
        assert(views(ts@).take(0) =~= Seq::<Seq<char>>::empty());
        assert(views(r@[0]@) =~= Seq::<Seq<char>>::empty());
    }
    while i < ts.len()
        invariant
            0 <= i <= ts.len(),
            r@.len() >= 1,
            crate::records::group_views(r@) == split_on(views(ts@).take(i as int), sep@),
        decreases ts.len() - i,
    {
        let ghost before = crate::records::group_views(r@);
        let ghost tv = views(ts@).take(i as int + 1);
        assert(tv.drop_last() =~= views(ts@).take(i as int));
        assert(tv.last() == ts@[i as int]@);
        if same_token(&ts[i], sep) {
            r.push(Vec::new());
            assert(crate::records::group_views(r@) =~= before.push(seq![])) by {
                assert(views(r@.last()@) =~= Seq::<Seq<char>>::empty());
            }
        } else {
            let last = r.len() - 1;
            let mut g = r.pop().unwrap();
            let t = crate::chars::subvec(&ts[i], 0, ts[i].len());
            assert(t@ =~= ts@[i as int]@);
            let ghost gv = views(g@);
            g.push(t);
            assert(views(g@) =~= gv.push(t@));
            r.push(g);
            assert(crate::records::group_views(r@) =~= before.update(
                before.len() - 1,
                before.last().push(t@),
            ));
        }
        i += 1;
    }
    assert(views(ts@).take(ts.len() as int) =~= views(ts@));
    r
}

/// A word: a token that is not `{`, `}` or `,`.
pub open spec fn is_word(t: Seq<char>) -> bool {
    t.len() > 0 && !is_punct(t[0])
}

/// The error for a requirement that does not have the shape of one.
pub open spec fn invalid() -> ParseError {
    ParseError::Invalid("requirement")
}

pub open spec fn not_comma() -> spec_fn(Seq<char>) -> bool {
    |t: Seq<char>| t != ","@
}

/// The words of a list in braces after its keyword, `{ a, b, }`: every
/// token between the braces that is not a comma, where all of those are
/// words.
pub open spec fn braced_list(ts: Seq<Seq<char>>) -> Option<Seq<Seq<char>>> {
    let n = ts.len();
    if n >= 3 && ts[1] == "{"@ && ts[n - 1] == "}"@ && forall|k: int|
        2 <= k < n - 1 ==> #[trigger] ts[k] == ","@ || is_word(ts[k]) {
        Some(ts.subrange(2, n - 1).filter(not_comma()))
    } else {
        None
    }
}

/// Whether every token from `from` on is a flag, `queued` or `factionwide`.
pub open spec fn flags_ok(ts: Seq<Seq<char>>, from: int) -> bool {
    forall|k: int| from <= k < ts.len() ==> #[trigger] ts[k] == "queued"@ || ts[k] == "factionwide"@
}

/// Whether the flag `f` is among the tokens from `from` on.
pub open spec fn has_flag(ts: Seq<Seq<char>>, from: int, f: Seq<char>) -> bool {
    exists|k: int| from <= k < ts.len() && #[trigger] ts[k] == f
}

/// A word without the double quotes around it, where it has them.
pub open spec fn unquote(w: Seq<char>) -> Seq<char> {
    if w.len() >= 2 && w[0] == '"' && w.last() == '"' {
        w.subrange(1, w.len() - 1)
    } else {
        w
    }
}

/// `factions { .. }`, or `building_factions { .. }` where `building` is set.
pub open spec fn factions_cond(ts: Seq<Seq<char>>, building: bool) -> Result<ReqView, ParseError> {
    match braced_list(ts) {
        Some(fs) => if building {
            Ok(ReqView::BuildingFactions(fs))
        } else {
            Ok(ReqView::Factions(fs))
        },
        None => Err(invalid()),
    }
}

/// `resource ID [factionwide]`, or `hidden_resource ..` where `hidden` is
/// set.
pub open spec fn resource_cond(ts: Seq<Seq<char>>, hidden: bool) -> Result<ReqView, ParseError> {
    let n = ts.len();
    if (n == 2 || (n == 3 && ts[2] == "factionwide"@)) && is_word(ts[1]) {
        if hidden {
            Ok(ReqView::HiddenResource { id: ts[1], factionwide: n == 3 })
        } else {
            Ok(ReqView::Resource { id: ts[1], factionwide: n == 3 })
        }
    } else {
        Err(invalid())
    }
}

/// `building_present ID FLAGS`, or `building_present_min_level ID LEVEL
/// FLAGS` where `leveled` is set.
pub open spec fn present_cond(ts: Seq<Seq<char>>, leveled: bool) -> Result<ReqView, ParseError> {
    let from: int = if leveled {
        3
    } else {
        2
    };
    if ts.len() >= from && is_word(ts[1]) && (!leveled || is_word(ts[2])) && flags_ok(ts, from) {
        Ok(
            ReqView::BuildingPresent {
                id: ts[1],
                level: if leveled {
                    Some(ts[2])
                } else {
                    None
                },
                queued: has_flag(ts, from, "queued"@),
                factionwide: has_flag(ts, from, "factionwide"@),
            },
        )
    } else {
        Err(invalid())
    }
}

/// `no_building_tagged TAG FLAGS`.
pub open spec fn no_tag_cond(ts: Seq<Seq<char>>) -> Result<ReqView, ParseError> {
    if ts.len() >= 2 && is_word(ts[1]) && flags_ok(ts, 2) {
        Ok(
            ReqView::NoBuildingTagged {
                tag: ts[1],
                queued: has_flag(ts, 2, "queued"@),
                factionwide: has_flag(ts, 2, "factionwide"@),
            },
        )
    } else {
        Err(invalid())
    }
}

/// A keyword followed by one word: `major_event`, `is_toggled` and
/// `majority_religion`.
pub open spec fn named_cond(ts: Seq<Seq<char>>) -> Result<ReqView, ParseError> {
    if ts.len() == 2 && is_word(ts[1]) {
        let k = ts[0];
        if k == "major_event"@ {
            Ok(ReqView::MajorEvent(unquote(ts[1])))
        } else if k == "is_toggled"@ {
            Ok(ReqView::IsToggled(ts[1]))
        } else {
            Ok(ReqView::MajorityReligion(ts[1]))
        }
    } else {
        Err(invalid())
    }
}

/// A keyword followed by a word and a number: `event_counter`,
/// `region_religion` and `capability`.
pub open spec fn counted_cond(ts: Seq<Seq<char>>) -> Result<ReqView, ParseError> {
    if ts.len() == 3 && is_word(ts[1]) {
        match maybe_float_int(ts[2]) {
            None => Err(ParseError::InvalidNumber("requirement amount")),
            Some(a) => {
                let k = ts[0];
                if k == "event_counter"@ {
                    Ok(ReqView::EventCount { event: ts[1], count: a })
                } else if k == "region_religion"@ {
                    Ok(ReqView::Religion { id: ts[1], cmp: Cmp::Ge, amount: a })
                } else {
                    Ok(ReqView::Capability { capability: ts[1], amount: a })
                }
            },
        }
    } else {
        Err(invalid())
    }
}

/// `diplomatic_stance STATUS FACTION`.
pub open spec fn diplomacy_cond(ts: Seq<Seq<char>>) -> Result<ReqView, ParseError> {
    if ts.len() == 3 && is_word(ts[2]) {
        match dip_status_of(ts[1]) {
            None => Err(ParseError::Invalid("diplomacy status")),
            Some(st) => Ok(ReqView::Diplomacy { status: st, faction: ts[2] }),
        }
    } else {
        Err(invalid())
    }
}

/// `religion ID OP AMOUNT`.
pub open spec fn religion_cond(ts: Seq<Seq<char>>) -> Result<ReqView, ParseError> {
    if ts.len() == 4 && is_word(ts[1]) {
        match cmp_of(ts[2]) {
            None => Err(ParseError::Invalid("comparison operator")),
            Some(c) => match maybe_float_int(ts[3]) {
                None => Err(ParseError::InvalidNumber("requirement amount")),
                Some(a) => Ok(ReqView::Religion { id: ts[1], cmp: c, amount: a }),
            },
        }
    } else {
        Err(invalid())
    }
}

/// A keyword alone: `port`, `is_player` and `official_religion`.
pub open spec fn bare_cond(ts: Seq<Seq<char>>) -> Result<ReqView, ParseError> {
    if ts.len() == 1 {
        let k = ts[0];
        if k == "port"@ {
            Ok(ReqView::Port)
        } else if k == "is_player"@ {
            Ok(ReqView::IsPlayer)
        } else {
            Ok(ReqView::OfficialReligion)
        }
    } else {
        Err(invalid())
    }
}

/// A primary condition.
pub open spec fn primary(ts: Seq<Seq<char>>) -> Result<ReqView, ParseError> {
    if ts.len() == 0 || !is_word(ts[0]) {
        Err(invalid())
    } else {
        let k = ts[0];
        if k == "factions"@ {
            factions_cond(ts, false)
        } else if k == "building_factions"@ {
            factions_cond(ts, true)
        } else if k == "resource"@ {
            resource_cond(ts, false)
        } else if k == "hidden_resource"@ {
            resource_cond(ts, true)
        } else if k == "building_present"@ {
            present_cond(ts, false)
        } else if k == "building_present_min_level"@ {
            present_cond(ts, true)
        } else if k == "no_building_tagged"@ {
            no_tag_cond(ts)
        } else if k == "major_event"@ || k == "is_toggled"@ || k == "majority_religion"@ {
            named_cond(ts)
        } else if k == "event_counter"@ || k == "region_religion"@ || k == "capability"@ {
            counted_cond(ts)
        } else if k == "diplomatic_stance"@ {
            diplomacy_cond(ts)
        } else if k == "religion"@ {
            religion_cond(ts)
        } else if k == "port"@ || k == "is_player"@ || k == "official_religion"@ {
            bare_cond(ts)
        } else if ts.len() == 1 {
            Ok(ReqView::Alias(k))
        } else {
            Ok(ReqView::Unknown)
        }
    }
}

/// A condition: a primary one, or `not` and a primary one.
pub open spec fn condition(ts: Seq<Seq<char>>) -> Result<ReqView, ParseError> {
    if ts.len() > 0 && ts[0] == "not"@ {
        match primary(ts.drop_first()) {
            Ok(x) => Ok(ReqView::Not(Box::new(x))),
            Err(e) => Err(e),
        }
    } else {
        primary(ts)
    }
}

pub open spec fn condition_reader() -> spec_fn(Seq<Seq<char>>) -> Result<ReqView, ParseError> {
    |ts: Seq<Seq<char>>| condition(ts)
}

/// Conditions joined by `and`: the condition itself where there is one.
pub open spec fn conjunction(g: Seq<Seq<char>>) -> Result<ReqView, ParseError> {
    let cs = split_on(g, "and"@);
    if cs.len() == 1 {
        condition(cs[0])
    } else {
        match map_all(cs, condition_reader()) {
            Ok(xs) => Ok(ReqView::And(xs)),
            Err(e) => Err(e),
        }
    }
}

pub open spec fn conjunction_reader() -> spec_fn(Seq<Seq<char>>) -> Result<ReqView, ParseError> {
    |g: Seq<Seq<char>>| conjunction(g)
}

/// A requirement: the word `requires`, then alternatives joined by `or`,
/// each the conjunction itself where there is one.
pub open spec fn requirement(s: Seq<char>) -> Result<ReqView, ParseError> {
    let ts = tokens(s);
    if ts.len() == 0 || ts[0] != "requires"@ {
        Err(invalid())
    } else {
        let gs = split_on(ts.drop_first(), "or"@);
        if gs.len() == 1 {
            conjunction(gs[0])
        } else {
            match map_all(gs, conjunction_reader()) {
                Ok(xs) => Ok(ReqView::Or(xs)),
                Err(e) => Err(e),
            }
        }
    }
}

fn is_word_token(t: &Vec<char>) -> (b: bool)
    ensures
        b == is_word(t@),
{
    t.len() > 0 && !is_punct_char(t[0])
}

/// The words of a list in braces after its keyword.
fn braced_words(ts: &Vec<Vec<char>>) -> (r: Option<Vec<String>>)
    ensures
        match (r, braced_list(views(ts@))) {
            (Some(v), Some(w)) => v.deep_view() == w,
            (None, None) => true,
            _ => false,
        },
{
    let ghost tv = views(ts@);
    let n = ts.len();
    if n < 3 || !same_token(&ts[1], "{") || !same_token(&ts[n - 1], "}") {
        return None;
    }
    let mut out: Vec<String> = Vec::new();
    let mut k: usize = 2;
    assert(tv.subrange(2, 2) =~= Seq::<Seq<char>>::empty());
    assert(out.deep_view() =~= Seq::<Seq<char>>::empty());
    while k < n - 1
        invariant
            2 <= k <= n - 1,
            n == ts.len(),
            tv == views(ts@),
            forall|j: int| 2 <= j < k ==> #[trigger] tv[j] == ","@ || is_word(tv[j]),
            out.deep_view() == tv.subrange(2, k as int).filter(not_comma()),
        decreases n - 1 - k,
    {
        let ghost sub = tv.subrange(2, k as int + 1);
        assert(sub.drop_last() =~= tv.subrange(2, k as int));
        assert(sub.last() == tv[k as int]);
        assert(tv[k as int] == ts@[k as int]@);
        proof {
            reveal(Seq::filter);
        }
        if same_token(&ts[k], ",") {
            assert(!not_comma()(sub.last()));
            assert(sub.filter(not_comma()) == sub.drop_last().filter(not_comma()));
        } else if is_word_token(&ts[k]) {
            let ghost before = out.deep_view();
            out.push(string_of(&ts[k]));
            assert(not_comma()(sub.last()));
            assert(sub.filter(not_comma()) == sub.drop_last().filter(not_comma()).push(sub.last()));
            assert(out.deep_view() =~= before.push(tv[k as int]));
        } else {
            assert(!(tv[k as int] == ","@ || is_word(tv[k as int])));
            return None;
        }
        k += 1;
    }
    Some(out)
}

/// Whether every token from `from` on is a flag, and which flags there are.
fn read_flags(ts: &Vec<Vec<char>>, from: usize) -> (r: Option<(bool, bool)>)
    requires
        from <= ts.len(),
    ensures
        match r {
            Some((q, f)) => flags_ok(views(ts@), from as int) && q == has_flag(
                views(ts@),
                from as int,
                "queued"@,
            ) && f == has_flag(views(ts@), from as int, "factionwide"@),
            None => !flags_ok(views(ts@), from as int),
        },
{
    let ghost tv = views(ts@);
    let mut queued = false;
    let mut factionwide = false;
    let mut k = from;
    while k < ts.len()
        invariant
            from <= k <= ts.len(),
            tv == views(ts@),
            forall|j: int| from <= j < k ==> #[trigger] tv[j] == "queued"@ || tv[j] == "factionwide"@,
            queued == exists|j: int| from <= j < k && #[trigger] tv[j] == "queued"@,
            factionwide == exists|j: int| from <= j < k && #[trigger] tv[j] == "factionwide"@,
        decreases ts.len() - k,
    {
        assert(tv[k as int] == ts@[k as int]@);
        proof {
            reveal_strlit("queued");
            reveal_strlit("factionwide");
            assert("queued"@.len() != "factionwide"@.len());
        }
        if same_token(&ts[k], "queued") {
            queued = true;
        } else if same_token(&ts[k], "factionwide") {
            factionwide = true;
        } else {
            assert(!(tv[k as int] == "queued"@ || tv[k as int] == "factionwide"@));
            return None;
        }
        k += 1;
    }
    Some((queued, factionwide))
}

fn bad() -> (e: ParseError)
    ensures
        e == invalid(),
{
    ParseError::Invalid("requirement")
}

/// `factions { .. }`.
fn parse_factions(ts: &Vec<Vec<char>>) -> (r: Result<Requires, ParseError>)
    ensures
        res_req(r) == factions_cond(views(ts@), false),
{
    match braced_words(ts) {
        Some(fs) => Ok(Requires::Factions(fs)),
        None => Err(bad()),
    }
}

/// `building_factions { .. }`.
fn parse_building_factions(ts: &Vec<Vec<char>>) -> (r: Result<Requires, ParseError>)
    ensures
        res_req(r) == factions_cond(views(ts@), true),
{
    match braced_words(ts) {
        Some(fs) => Ok(Requires::BuildingFactions(fs)),
        None => Err(bad()),
    }
}

/// The id and the factionwide flag of `resource` and `hidden_resource`.
fn resource_parts(ts: &Vec<Vec<char>>) -> (r: Option<(String, bool)>)
    ensures
        ({
            let tv = views(ts@);
            let n = tv.len();
            let ok = (n == 2 || (n == 3 && tv[2] == "factionwide"@)) && is_word(tv[1]);
            match r {
                Some((id, f)) => ok && id@ == tv[1] && f == (n == 3),
                None => !ok,
            }
        }),
{
    let n = ts.len();
    if (n == 2 || (n == 3 && same_token(&ts[2], "factionwide"))) && is_word_token(&ts[1]) {
        Some((string_of(&ts[1]), n == 3))
    } else {
        None
    }
}

/// `resource ID [factionwide]`.
fn parse_resource(ts: &Vec<Vec<char>>) -> (r: Result<Requires, ParseError>)
    ensures
        res_req(r) == resource_cond(views(ts@), false),
{
    match resource_parts(ts) {
        Some((id, factionwide)) => Ok(Requires::Resource { id, factionwide }),
        None => Err(bad()),
    }
}

/// `hidden_resource ID [factionwide]`.
fn parse_hidden_resource(ts: &Vec<Vec<char>>) -> (r: Result<Requires, ParseError>)
    ensures
        res_req(r) == resource_cond(views(ts@), true),
{
    match resource_parts(ts) {
        Some((id, factionwide)) => Ok(Requires::HiddenResource { id, factionwide }),
        None => Err(bad()),
    }
}

/// `building_present ID FLAGS`.
fn parse_building_present(ts: &Vec<Vec<char>>) -> (r: Result<Requires, ParseError>)
    ensures
        res_req(r) == present_cond(views(ts@), false),
{
    if ts.len() >= 2 && is_word_token(&ts[1]) {
        match read_flags(ts, 2) {
            Some((queued, factionwide)) => Ok(
                Requires::BuildingPresent { id: string_of(&ts[1]), level: None, queued, factionwide },
            ),
            None => Err(bad()),
        }
    } else {
        Err(bad())
    }
}

/// `building_present_min_level ID LEVEL FLAGS`.
fn parse_building_level(ts: &Vec<Vec<char>>) -> (r: Result<Requires, ParseError>)
    ensures
        res_req(r) == present_cond(views(ts@), true),
{
    if ts.len() >= 3 && is_word_token(&ts[1]) && is_word_token(&ts[2]) {
        match read_flags(ts, 3) {
            Some((queued, factionwide)) => Ok(
                Requires::BuildingPresent {
                    id: string_of(&ts[1]),
                    level: Some(string_of(&ts[2])),
                    queued,
                    factionwide,
                },
            ),
            None => Err(bad()),
        }
    } else {
        Err(bad())
    }
}

/// `no_building_tagged TAG FLAGS`.
fn parse_no_tag(ts: &Vec<Vec<char>>) -> (r: Result<Requires, ParseError>)
    ensures
        res_req(r) == no_tag_cond(views(ts@)),
{
    if ts.len() >= 2 && is_word_token(&ts[1]) {
        match read_flags(ts, 2) {
            Some((queued, factionwide)) => Ok(
                Requires::NoBuildingTagged { tag: string_of(&ts[1]), queued, factionwide },
            ),
            None => Err(bad()),
        }
    } else {
        Err(bad())
    }
}

/// A word without the double quotes around it.
fn unquoted(w: &Vec<char>) -> (r: String)
    ensures
        r@ == unquote(w@),
{
    let n = w.len();
    if n >= 2 && w[0] == '"' && w[n - 1] == '"' {
        string_of(&subvec(w, 1, n - 1))
    } else {
        string_of(w)
    }
}

/// `major_event "EVENT"`, `is_toggled ID` and `majority_religion ID`.
fn parse_named(ts: &Vec<Vec<char>>) -> (r: Result<Requires, ParseError>)
    requires
        ts.len() > 0,
    ensures
        res_req(r) == named_cond(views(ts@)),
{
    if ts.len() == 2 && is_word_token(&ts[1]) {
        if same_token(&ts[0], "major_event") {
            Ok(Requires::MajorEvent(unquoted(&ts[1])))
        } else if same_token(&ts[0], "is_toggled") {
            Ok(Requires::IsToggled(string_of(&ts[1])))
        } else {
            Ok(Requires::MajorityReligion(string_of(&ts[1])))
        }
    } else {
        Err(bad())
    }
}

/// `event_counter EVENT COUNT`, `region_religion ID AMOUNT` and
/// `capability ID AMOUNT`.
fn parse_event_count(ts: &Vec<Vec<char>>) -> (r: Result<Requires, ParseError>)
    requires
        ts.len() > 0,
    ensures
        res_req(r) == counted_cond(views(ts@)),
{
    if ts.len() == 3 && is_word_token(&ts[1]) {
        match parse_maybe_float_int(&ts[2]) {
            None => Err(ParseError::InvalidNumber("requirement amount")),
            Some(a) => {
                let id = string_of(&ts[1]);
                if same_token(&ts[0], "event_counter") {
                    Ok(Requires::EventCount { event: id, count: a })
                } else if same_token(&ts[0], "region_religion") {
                    Ok(Requires::Religion { id, cmp: Cmp::Ge, amount: a })
                } else {
                    Ok(Requires::Capability { capability: id, amount: a })
                }
            },
        }
    } else {
        Err(bad())
    }
}

/// `diplomatic_stance STATUS FACTION`.
fn parse_diplomacy(ts: &Vec<Vec<char>>) -> (r: Result<Requires, ParseError>)
    ensures
        res_req(r) == diplomacy_cond(views(ts@)),
{
    if ts.len() == 3 && is_word_token(&ts[2]) {
        let st = string_of(&ts[1]);
        match DipStatus::from_str(st.as_str()) {
            Err(_) => Err(ParseError::Invalid("diplomacy status")),
            Ok(status) => Ok(Requires::Diplomacy { status, faction: string_of(&ts[2]) }),
        }
    } else {
        Err(bad())
    }
}

/// `religion ID OP AMOUNT`.
fn parse_religion(ts: &Vec<Vec<char>>) -> (r: Result<Requires, ParseError>)
    ensures
        res_req(r) == religion_cond(views(ts@)),
{
    if ts.len() == 4 && is_word_token(&ts[1]) {
        let op = string_of(&ts[2]);
        match Cmp::from_str(op.as_str()) {
            Err(_) => Err(ParseError::Invalid("comparison operator")),
            Ok(cmp) => match parse_maybe_float_int(&ts[3]) {
                None => Err(ParseError::InvalidNumber("requirement amount")),
                Some(amount) => Ok(Requires::Religion { id: string_of(&ts[1]), cmp, amount }),
            },
        }
    } else {
        Err(bad())
    }
}

/// `port`, `is_player` and `official_religion`.
fn parse_bare(ts: &Vec<Vec<char>>) -> (r: Result<Requires, ParseError>)
    requires
        ts.len() > 0,
    ensures
        res_req(r) == bare_cond(views(ts@)),
{
    if ts.len() == 1 {
        if same_token(&ts[0], "port") {
            Ok(Requires::Port)
        } else if same_token(&ts[0], "is_player") {
            Ok(Requires::IsPlayer)
        } else {
            Ok(Requires::OfficialReligion)
        }
    } else {
        Err(bad())
    }
}

/// A primary condition.
fn parse_req_primary(ts: &Vec<Vec<char>>) -> (r: Result<Requires, ParseError>)
    ensures
        res_req(r) == primary(views(ts@)),
{
    if ts.len() == 0 || !is_word_token(&ts[0]) {
        return Err(bad());
    }
    let k = &ts[0];
    if same_token(k, "factions") {
        parse_factions(ts)
    } else if same_token(k, "building_factions") {
        parse_building_factions(ts)
    } else if same_token(k, "resource") {
        parse_resource(ts)
    } else if same_token(k, "hidden_resource") {
        parse_hidden_resource(ts)
    } else if same_token(k, "building_present") {
        parse_building_present(ts)
    } else if same_token(k, "building_present_min_level") {
        parse_building_level(ts)
    } else if same_token(k, "no_building_tagged") {
        parse_no_tag(ts)
    } else if same_token(k, "major_event") || same_token(k, "is_toggled") || same_token(
        k,
        "majority_religion",
    ) {
        parse_named(ts)
    } else if same_token(k, "event_counter") || same_token(k, "region_religion") || same_token(
        k,
        "capability",
    ) {
        parse_event_count(ts)
    } else if same_token(k, "diplomatic_stance") {
        parse_diplomacy(ts)
    } else if same_token(k, "religion") {
        parse_religion(ts)
    } else if same_token(k, "port") || same_token(k, "is_player") || same_token(
        k,
        "official_religion",
    ) {
        parse_bare(ts)
    } else if ts.len() == 1 {
        Ok(Requires::Alias(string_of(k)))
    } else {
        Ok(Requires::Unknown)
    }
}

/// The tokens from `lo` up to `hi`.
fn token_range(ts: &Vec<Vec<char>>, lo: usize, hi: usize) -> (r: Vec<Vec<char>>)
    requires
        lo <= hi <= ts.len(),
    ensures
        views(r@) == views(ts@).subrange(lo as int, hi as int),
{
    let mut r: Vec<Vec<char>> = Vec::new();
    let mut i = lo;
    while i < hi
        invariant
            lo <= i <= hi <= ts.len(),
            views(r@) == views(ts@).subrange(lo as int, i as int),
        decreases hi - i,
    {
        let ghost before = views(r@);
        let t = subvec(&ts[i], 0, ts[i].len());
        assert(t@ =~= ts@[i as int]@);
        r.push(t);
        assert(views(r@) =~= before.push(t@));
        assert(views(r@) =~= views(ts@).subrange(lo as int, i + 1));
        i += 1;
    }
    r
}

/// `not` and a primary condition.
fn parse_req_not(ts: &Vec<Vec<char>>) -> (r: Result<Requires, ParseError>)
    requires
        ts.len() > 0,
    ensures
        res_req(r) == match primary(views(ts@).drop_first()) {
            Ok(x) => Ok(ReqView::Not(Box::new(x))),
            Err(e) => Err(e),
        },
{
    let rest = token_range(ts, 1, ts.len());
    assert(views(rest@) =~= views(ts@).drop_first());
    match parse_req_primary(&rest) {
        Ok(x) => Ok(Requires::Not(Box::new(x))),
        Err(e) => Err(e),
    }
}

/// A condition.
fn parse_req_condition(ts: &Vec<Vec<char>>) -> (r: Result<Requires, ParseError>)
    ensures
        res_req(r) == condition(views(ts@)),
{
    if ts.len() > 0 && same_token(&ts[0], "not") {
        parse_req_not(ts)
    } else {
        parse_req_primary(ts)
    }
}

/// Conditions joined by `and`.
fn parse_req_and(g: &Vec<Vec<char>>) -> (r: Result<Requires, ParseError>)
    ensures
        res_req(r) == conjunction(views(g@)),
{
    let cs = split_tokens(g, "and");
    let ghost cv = group_views(cs@);
    if cs.len() == 1 {
        return parse_req_condition(&cs[0]);
    }
    let mut out: Vec<Requires> = Vec::new();
    let mut i: usize = 0;
    assert(cv.take(0) =~= Seq::<Seq<Seq<char>>>::empty());
    while i < cs.len()
        invariant
            0 <= i <= cs.len(),
            cv == group_views(cs@),
            cv == split_on(views(g@), "and"@),
            cs.len() != 1,
            map_all(cv.take(i as int), condition_reader()) == Ok::<Seq<ReqView>, ParseError>(
                reqs_view(out@),
            ),
        decreases cs.len() - i,
    {
        proof {
            lemma_map_all_step(cv, condition_reader(), i as int);
        }
        assert(cv[i as int] == views(cs@[i as int]@));
        match parse_req_condition(&cs[i]) {
            Err(e) => {
                proof {
                    lemma_map_all_err(cv, condition_reader(), i as int + 1, e);
                }
                return Err(e);
            },
            Ok(x) => {
                let ghost before = out@;
                out.push(x);
                assert(out@.drop_last() =~= before);
            },
        }
        i += 1;
    }
    assert(cv.take(cs.len() as int) =~= cv);
    Ok(Requires::And(out))
}

/// Alternatives joined by `or`.
fn parse_req_or(gs: &Vec<Vec<Vec<char>>>) -> (r: Result<Requires, ParseError>)
    ensures
        res_req(r) == match map_all(group_views(gs@), conjunction_reader()) {
            Ok(xs) => Ok(ReqView::Or(xs)),
            Err(e) => Err(e),
        },
{
    let ghost gv = group_views(gs@);
    let mut out: Vec<Requires> = Vec::new();
    let mut i: usize = 0;
    assert(gv.take(0) =~= Seq::<Seq<Seq<char>>>::empty());
    while i < gs.len()
        invariant
            0 <= i <= gs.len(),
            gv == group_views(gs@),
            map_all(gv.take(i as int), conjunction_reader()) == Ok::<Seq<ReqView>, ParseError>(
                reqs_view(out@),
            ),
        decreases gs.len() - i,
    {
        proof {
            lemma_map_all_step(gv, conjunction_reader(), i as int);
        }
        assert(gv[i as int] == views(gs@[i as int]@));
        match parse_req_and(&gs[i]) {
            Err(e) => {
                proof {
                    lemma_map_all_err(gv, conjunction_reader(), i as int + 1, e);
                }
                return Err(e);
            },
            Ok(x) => {
                let ghost before = out@;
                out.push(x);
                assert(out@.drop_last() =~= before);
            },
        }
        i += 1;
    }
    assert(gv.take(gs.len() as int) =~= gv);
    Ok(Requires::Or(out))
}

/// A requirement given as characters.
pub fn parse_requires(v: &Vec<char>) -> (r: Result<Requires, ParseError>)
    ensures
        res_req(r) == requirement(v@),
{
    let ts = tokenize(v);
    if ts.len() == 0 || !same_token(&ts[0], "requires") {
        return Err(bad());
    }
    let rest = token_range(&ts, 1, ts.len());
    assert(views(rest@) =~= views(ts@).drop_first());
    let gs = split_tokens(&rest, "or");
    if gs.len() == 1 {
        assert(group_views(gs@)[0] == views(gs@[0]@));
        parse_req_and(&gs[0])
    } else {
        parse_req_or(&gs)
    }
}

/// The reader of requirements.
pub struct Parser;

impl Parser {
    /// The requirement that a text states, such as
    /// `requires factions { roman, } and not hidden_resource no_barracks`.
    pub fn parse(text: &str) -> (r: Result<Requires, ParseError>)
        ensures
            res_req(r) == requirement(text@),
    {
        parse_requires(&crate::chars::chars_of(text))
    }
}

} // verus!
