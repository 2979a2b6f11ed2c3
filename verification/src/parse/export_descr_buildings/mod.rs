//! `export_descr_buildings.txt`: buildings, the units they let factions
//! recruit, and the requirements under which they do.
use vstd::prelude::*;

use crate::chars::{
    after_word, fields, find_sep, first_word, nth_word, nth_word_of, sep_pos, split_fields,
    split_word, starts_with, starts_with_str, string_of, subvec, trim, trim_chars, views,
    words_after, words_after_of,
};
use crate::numbers::{maybe_float_int, parse_maybe_float_int};
use crate::parse::export_descr_buildings::requirement::{parse_requires, requirement};
use crate::parse::manifest::ParserMode;
use crate::parse::ParseError;
use crate::records::{find_with_prefix, first_with_prefix, opt_view};

pub mod requirement;

verus! {

/// A level of a building: what it requires, the units it recruits, and the
/// least settlement it stands in.
#[derive(Debug)]
pub struct Building {
    pub req: Requires,
    pub caps: Vec<RecruitOption>,
    pub min: String,
}

/// A unit that a building level recruits, with its experience and its own
/// requirement.
#[derive(Debug)]
pub struct RecruitOption {
    pub unit: String,
    pub exp: u32,
    pub req: Requires,
}

/// A requirement: a condition on the state of a campaign.
#[derive(Debug)]
pub enum Requires {
    /// No requirement (named `None` in the game's terms).
    Nothing,
    False,
    Resource { id: String, factionwide: bool },
    HiddenResource { id: String, factionwide: bool },
    BuildingPresent { id: String, level: Option<String>, queued: bool, factionwide: bool },
    MajorEvent(String),
    EventCount { event: String, count: u32 },
    Factions(Vec<String>),
    BuildingFactions(Vec<String>),
    Port,
    IsPlayer,
    IsToggled(String),
    Diplomacy { status: DipStatus, faction: String },
    Capability { capability: String, amount: u32 },
    NoBuildingTagged { tag: String, queued: bool, factionwide: bool },
    Religion { id: String, cmp: Cmp, amount: u32 },
    MajorityReligion(String),
    OfficialReligion,
    Alias(String),
    Unknown,
    Not(Box<Requires>),
    And(Vec<Requires>),
    Or(Vec<Requires>),
}

/// A requirement as a mathematical value: its texts as character sequences.
pub enum ReqView {
    Nothing,
    False,
    Resource { id: Seq<char>, factionwide: bool },
    HiddenResource { id: Seq<char>, factionwide: bool },
    BuildingPresent {
        id: Seq<char>,
        level: Option<Seq<char>>,
        queued: bool,
        factionwide: bool,
    },
    MajorEvent(Seq<char>),
    EventCount { event: Seq<char>, count: u32 },
    Factions(Seq<Seq<char>>),
    BuildingFactions(Seq<Seq<char>>),
    Port,
    IsPlayer,
    IsToggled(Seq<char>),
    Diplomacy { status: DipStatus, faction: Seq<char> },
    Capability { capability: Seq<char>, amount: u32 },
    NoBuildingTagged { tag: Seq<char>, queued: bool, factionwide: bool },
    Religion { id: Seq<char>, cmp: Cmp, amount: u32 },
    MajorityReligion(Seq<char>),
    OfficialReligion,
    Alias(Seq<char>),
    Unknown,
    Not(Box<ReqView>),
    And(Seq<ReqView>),
    Or(Seq<ReqView>),
}

/// The mathematical value of a requirement.
pub open spec fn req_view(r: Requires) -> ReqView
    decreases r,
{
    match r {
        Requires::Nothing => ReqView::Nothing,
        Requires::False => ReqView::False,
        Requires::Resource { id, factionwide } => ReqView::Resource { id: id@, factionwide },
        Requires::HiddenResource { id, factionwide } => ReqView::HiddenResource {
            id: id@,
            factionwide,
        },
        Requires::BuildingPresent { id, level, queued, factionwide } => ReqView::BuildingPresent {
            id: id@,
            level: match level {
                Some(l) => Some(l@),
                None => None,
            },
            queued,
            factionwide,
        },
        Requires::MajorEvent(e) => ReqView::MajorEvent(e@),
        Requires::EventCount { event, count } => ReqView::EventCount { event: event@, count },
        Requires::Factions(fs) => ReqView::Factions(fs.deep_view()),
        Requires::BuildingFactions(fs) => ReqView::BuildingFactions(fs.deep_view()),
        Requires::Port => ReqView::Port,
        Requires::IsPlayer => ReqView::IsPlayer,
        Requires::IsToggled(t) => ReqView::IsToggled(t@),
        Requires::Diplomacy { status, faction } => ReqView::Diplomacy { status, faction: faction@ },
        Requires::Capability { capability, amount } => ReqView::Capability {
            capability: capability@,
            amount,
        },
        Requires::NoBuildingTagged { tag, queued, factionwide } => ReqView::NoBuildingTagged {
            tag: tag@,
            queued,
            factionwide,
        },
        Requires::Religion { id, cmp, amount } => ReqView::Religion { id: id@, cmp, amount },
        Requires::MajorityReligion(r) => ReqView::MajorityReligion(r@),
        Requires::OfficialReligion => ReqView::OfficialReligion,
        Requires::Alias(a) => ReqView::Alias(a@),
        Requires::Unknown => ReqView::Unknown,
        Requires::Not(x) => ReqView::Not(Box::new(req_view(*x))),
        Requires::And(items) => ReqView::And(reqs_view(items@)),
        Requires::Or(items) => ReqView::Or(reqs_view(items@)),
    }
}

/// The mathematical values of a list of requirements.
pub open spec fn reqs_view(rs: Seq<Requires>) -> Seq<ReqView>
    decreases rs,
{
    if rs.len() == 0 {
        seq![]
    } else {
        reqs_view(rs.drop_last()).push(req_view(rs.last()))
    }
}

/// A parsed requirement seen through its mathematical value.
pub open spec fn res_req(r: Result<Requires, ParseError>) -> Result<ReqView, ParseError> {
    match r {
        Ok(x) => Ok(req_view(x)),
        Err(e) => Err(e),
    }
}

impl Default for Requires {
    fn default() -> (r: Self)
        ensures
            r is Nothing,
    {
        Requires::Nothing
    }
}

/// A comparison operator.
#[derive(Debug, Clone, Copy, PartialEq, Eq, Structural)]
pub enum Cmp {
    Lt,
    Le,
    Gt,
    Ge,
}

/// Text that names no comparison operator.
#[derive(Debug)]
pub struct CmpParseError;

impl CmpParseError {
    /// The message of the error.
    pub fn message(&self) -> (s: &'static str)
        ensures
            s@ == "invalid comparation operator"@,
    {
        "invalid comparation operator"
    }
}

/// The operator that a text names.
pub open spec fn cmp_of(s: Seq<char>) -> Option<Cmp> {
    if s == "<"@ {
        Some(Cmp::Lt)
    } else if s == "<="@ {
        Some(Cmp::Le)
    } else if s == ">"@ {
        Some(Cmp::Gt)
    } else if s == ">="@ {
        Some(Cmp::Ge)
    } else {
        None
    }
}

impl Cmp {
    /// The operator that `s` names: `<`, `<=`, `>` or `>=`.
    pub fn from_str(s: &str) -> (r: Result<Cmp, CmpParseError>)
        ensures
            match (r, cmp_of(s@)) {
                (Ok(a), Some(b)) => a == b,
                (Err(_), None) => true,
                _ => false,
            },
    {
        let v = crate::chars::chars_of(s);
        if crate::chars::eq_str(&v, "<") {
            Ok(Cmp::Lt)
        } else if crate::chars::eq_str(&v, "<=") {
            Ok(Cmp::Le)
        } else if crate::chars::eq_str(&v, ">") {
            Ok(Cmp::Gt)
        } else if crate::chars::eq_str(&v, ">=") {
            Ok(Cmp::Ge)
        } else {
            Err(CmpParseError)
        }
    }
}

/// A diplomatic status between factions.
#[derive(Debug, Clone, Copy, PartialEq, Eq, Structural)]
pub enum DipStatus {
    Allied,
    Protector,
    Protectorate,
    SameSuperfaction,
    AtWar,
}

/// Text that names no diplomatic status.
#[derive(Debug)]
pub struct DipStatusParseError;

impl DipStatusParseError {
    /// The message of the error.
    pub fn message(&self) -> (s: &'static str)
        ensures
            s@ == "invalid diplomacy status"@,
    {
        "invalid diplomacy status"
    }
}

/// The status that a text names.
pub open spec fn dip_status_of(s: Seq<char>) -> Option<DipStatus> {
    if s == "allied"@ {
        Some(DipStatus::Allied)
    } else if s == "protector"@ {
        Some(DipStatus::Protector)
    } else if s == "protectorate"@ {
        Some(DipStatus::Protectorate)
    } else if s == "same_superfaction"@ {
        Some(DipStatus::SameSuperfaction)
    } else if s == "at_war"@ {
        Some(DipStatus::AtWar)
    } else {
        None
    }
}

impl DipStatus {
    /// The status that `s` names: `allied`, `protector`, `protectorate`,
    /// `same_superfaction` or `at_war`.
    pub fn from_str(s: &str) -> (r: Result<DipStatus, DipStatusParseError>)
        ensures
            match (r, dip_status_of(s@)) {
                (Ok(a), Some(b)) => a == b,
                (Err(_), None) => true,
                _ => false,
            },
    {
        let v = crate::chars::chars_of(s);
        if crate::chars::eq_str(&v, "allied") {
            Ok(DipStatus::Allied)
        } else if crate::chars::eq_str(&v, "protector") {
            Ok(DipStatus::Protector)
        } else if crate::chars::eq_str(&v, "protectorate") {
            Ok(DipStatus::Protectorate)
        } else if crate::chars::eq_str(&v, "same_superfaction") {
            Ok(DipStatus::SameSuperfaction)
        } else if crate::chars::eq_str(&v, "at_war") {
            Ok(DipStatus::AtWar)
        } else {
            Err(DipStatusParseError)
        }
    }
}

/// How many times `c` occurs in `l`.
pub open spec fn count_char(l: Seq<char>, c: char) -> nat
    decreases l.len(),
{
    if l.len() == 0 {
        0
    } else {
        count_char(l.drop_last(), c) + if l.last() == c {
            1nat
        } else {
            0nat
        }
    }
}

/// The count of open braces after a line: those it opens added, those it
/// closes taken away, in `usize` arithmetic that wraps around.
pub open spec fn brace_step(b: usize, l: Seq<char>) -> usize {
    b.wrapping_add(count_char(l, '{') as usize).wrapping_sub(count_char(l, '}') as usize)
}

/// The block that starts at line `i`, with `braces` open and `acc` read so
/// far: a line `{` while none is open opens it and is not kept; a line `}`
/// while one is open closes it and is not kept; any other line is kept,
/// and the block ends after it where it leaves no brace open. The block's
/// lines and the index of the line after it; `None` where the lines run out.
pub open spec fn block_at(ls: Seq<Seq<char>>, i: int, braces: usize, acc: Seq<Seq<char>>) -> Option<
    (Seq<Seq<char>>, int),
>
    decreases ls.len() - i,
{
    if i < 0 || i >= ls.len() {
        None
    } else {
        let l = ls[i];
        if l == "{"@ && braces == 0 {
            block_at(ls, i + 1, 1, acc)
        } else if l == "}"@ && braces == 1 {
            Some((acc, i + 1))
        } else {
            let b = brace_step(braces, l);
            if b == 0 {
                Some((acc.push(l), i + 1))
            } else {
                block_at(ls, i + 1, b, acc.push(l))
            }
        }
    }
}

/// The block that starts at line `i`.
pub open spec fn block(ls: Seq<Seq<char>>, i: int) -> Option<(Seq<Seq<char>>, int)> {
    block_at(ls, i, 0, seq![])
}

/// A block ends after the line it starts at.
pub proof fn lemma_block_advances(ls: Seq<Seq<char>>, i: int, braces: usize, acc: Seq<Seq<char>>)
    ensures
        block_at(ls, i, braces, acc) matches Some((_, j)) ==> i < j <= ls.len(),
    decreases ls.len() - i,
{
    if 0 <= i < ls.len() {
        let l = ls[i];
        if l == "{"@ && braces == 0 {
            lemma_block_advances(ls, i + 1, 1, acc);
        } else if !(l == "}"@ && braces == 1) && brace_step(braces, l) != 0 {
            lemma_block_advances(ls, i + 1, brace_step(braces, l), acc.push(l));
        }
    }
}

/// Where reading past a block from line `i`, with `braces` open, stops:
/// after the first line that leaves no brace open, or at the end.
pub open spec fn skip_at(ls: Seq<Seq<char>>, i: int, braces: usize) -> int
    decreases ls.len() - i,
{
    if i < 0 || i >= ls.len() {
        ls.len() as int
    } else {
        let b = brace_step(braces, ls[i]);
        if b == 0 {
            i + 1
        } else {
            skip_at(ls, i + 1, b)
        }
    }
}

pub proof fn lemma_skip_advances(ls: Seq<Seq<char>>, i: int, braces: usize)
    requires
        0 <= i < ls.len(),
    ensures
        i < skip_at(ls, i, braces) <= ls.len(),
    decreases ls.len() - i,
{
    let b = brace_step(braces, ls[i]);
    if b != 0 {
        if i + 1 < ls.len() {
            lemma_skip_advances(ls, i + 1, b);
        } else {
            assert(skip_at(ls, i + 1, b) == ls.len());
        }
    }
}

/// The numbers of `{` and of `}` in a line.
fn count_braces(l: &Vec<char>) -> (r: (usize, usize))
    ensures
        r.0 == count_char(l@, '{'),
        r.1 == count_char(l@, '}'),
{
    let mut o: usize = 0;
    let mut c: usize = 0;
    let mut i: usize = 0;
    assert(l@.take(0) =~= Seq::<char>::empty());
    while i < l.len()
        invariant
            0 <= i <= l.len(),
            o == count_char(l@.take(i as int), '{'),
            c == count_char(l@.take(i as int), '}'),
            o <= i,
            c <= i,
        decreases l.len() - i,
    {
        assert(l@.take(i + 1).drop_last() =~= l@.take(i as int));
        assert(l@.take(i + 1).last() == l@[i as int]);
        if l[i] == '{' {
            o += 1;
        } else if l[i] == '}' {
            c += 1;
        }
        i += 1;
    }
    assert(l@.take(l.len() as int) =~= l@);
    (o, c)
}

fn next_braces(b: usize, l: &Vec<char>) -> (r: usize)
    ensures
        r == brace_step(b, l@),
{
    let (o, c) = count_braces(l);
    b.wrapping_add(o).wrapping_sub(c)
}

fn is_line(l: &Vec<char>, s: &str) -> (r: bool)
    ensures
        r == (l@ == s@),
{
    crate::chars::eq_str(l, s)
}

fn copy_line(l: &Vec<char>) -> (r: Vec<char>)
    ensures
        r@ == l@,
{
    crate::chars::subvec(l, 0, l.len())
}

/// The block that starts at line `start`, and the index of the line after
/// it.
fn get_block(ls: &Vec<Vec<char>>, start: usize) -> (r: Result<(Vec<Vec<char>>, usize), ParseError>)
    ensures
        match (r, block(views(ls@), start as int)) {
            (Ok((b, j)), Some((bv, jv))) => views(b@) == bv && j == jv,
            (Err(e), None) => e == ParseError::Invalid("block"),
            _ => false,
        },
{
    let ghost lv = views(ls@);
    let mut braces: usize = 0;
    let mut acc: Vec<Vec<char>> = Vec::new();
    let mut i = start;
    assert(views(acc@) =~= Seq::<Seq<char>>::empty());
    while i < ls.len()
        invariant
            start <= i,
            lv == views(ls@),
            block_at(lv, i as int, braces, views(acc@)) == block(lv, start as int),
        decreases ls.len() - i,
    {
        let l = &ls[i];
        assert(lv[i as int] == l@);
        if braces == 0 && is_line(l, "{") {
            braces = 1;
        } else if braces == 1 && is_line(l, "}") {
            return Ok((acc, i + 1));
        } else {
            let b = next_braces(braces, l);
            let ghost before = views(acc@);
            acc.push(copy_line(l));
            assert(views(acc@) =~= before.push(l@));
            if b == 0 {
                return Ok((acc, i + 1));
            }
            braces = b;
        }
        i += 1;
    }
    Err(ParseError::Invalid("block"))
}

/// The index of the line after the block that starts at `start`.
fn skip_block(ls: &Vec<Vec<char>>, start: usize) -> (j: usize)
    ensures
        j == skip_at(views(ls@), start as int, 0),
{
    let ghost lv = views(ls@);
    let mut braces: usize = 0;
    let mut i = start;
    while i < ls.len()
        invariant
            start <= i,
            lv == views(ls@),
            skip_at(lv, i as int, braces) == skip_at(lv, start as int, 0),
        decreases ls.len() - i,
    {
        assert(lv[i as int] == ls@[i as int]@);
        let b = next_braces(braces, &ls[i]);
        if b == 0 {
            return i + 1;
        }
        braces = b;
        i += 1;
    }
    ls.len()
}

/// A requirement where there is text for one, and none where there is not.
pub open spec fn opt_requirement(t: Option<Seq<char>>) -> Result<ReqView, ParseError> {
    match t {
        None => Ok(ReqView::Nothing),
        Some(x) => requirement(x),
    }
}

/// A unit that a building level recruits, as a mathematical value.
pub struct RecruitView {
    pub unit: Seq<char>,
    pub exp: u32,
    pub req: ReqView,
}

/// A building level as a mathematical value.
pub struct BuildingView {
    pub req: ReqView,
    pub caps: Seq<RecruitView>,
    pub min: Seq<char>,
}

pub open spec fn recruit_view(r: RecruitOption) -> RecruitView {
    RecruitView { unit: r.unit@, exp: r.exp, req: req_view(r.req) }
}

pub open spec fn recruits_view(rs: Seq<RecruitOption>) -> Seq<RecruitView> {
    Seq::new(rs.len(), |i: int| recruit_view(rs[i]))
}

pub open spec fn building_view(b: Building) -> BuildingView {
    BuildingView { req: req_view(b.req), caps: recruits_view(b.caps@), min: b.min@ }
}

pub open spec fn buildings_view(bs: Seq<Building>) -> Seq<BuildingView> {
    Seq::new(bs.len(), |i: int| building_view(bs[i]))
}

pub open spec fn quote() -> Seq<char> {
    seq!['"']
}

/// The fields of a recruit line after its keyword: the unit in double
/// quotes right after the keyword's white space, then (for a recruit pool)
/// three numbers of the pool, the experience, and a requirement if any
/// text follows.
pub open spec fn recruit_fields(l: Seq<char>, pool: bool) -> Result<RecruitView, ParseError> {
    match after_word(l) {
        None => Err(ParseError::Missing("unit")),
        Some(r) => {
            let p0 = sep_pos(r, quote(), false);
            if p0 != 0 {
                Err(ParseError::Invalid("missing quotes around unit"))
            } else if p0 >= r.len() {
                Err(ParseError::Missing("unit"))
            } else {
                let a = r.skip(1);
                let p1 = sep_pos(a, quote(), false);
                if p1 >= a.len() {
                    Err(ParseError::Missing("exp"))
                } else {
                    let rest = trim(a.skip((p1 + 1) as int));
                    let e: nat = if pool {
                        3
                    } else {
                        0
                    };
                    if pool && (nth_word(rest, 0) is None || nth_word(rest, 1) is None || nth_word(
                        rest,
                        2,
                    ) is None) {
                        Err(ParseError::Missing("recruit pool data"))
                    } else {
                        match nth_word(rest, e) {
                            None => Err(ParseError::Missing("exp")),
                            Some(w) => match maybe_float_int(w) {
                                None => Err(ParseError::InvalidNumber("exp")),
                                Some(x) => match opt_requirement(words_after(rest, e + 1)) {
                                    Err(err) => Err(err),
                                    Ok(req) => Ok(RecruitView { unit: trim(a.take(p1 as int)), exp: x, req }),
                                },
                            },
                        }
                    }
                }
            }
        },
    }
}

/// A line of a `capability` block: `None` where it recruits nothing (its
/// keyword is not `recruit`, nor `recruit_pool` for Medieval II).
pub open spec fn recruit_line(l: Seq<char>, mode: ParserMode) -> Option<Result<RecruitView, ParseError>> {
    match first_word(l) {
        None => Some(Err(ParseError::Invalid("recruit line"))),
        Some(kw) => if kw != "recruit"@ && (mode != ParserMode::Medieval2 || kw != "recruit_pool"@) {
            None
        } else {
            Some(recruit_fields(l, kw == "recruit_pool"@))
        },
    }
}

/// The units of a `capability` block, from its lines that begin with
/// `recruit`, in order; the first line in error decides the error.
pub open spec fn caps_of(cb: Seq<Seq<char>>, mode: ParserMode) -> Result<Seq<RecruitView>, ParseError>
    decreases cb.len(),
{
    if cb.len() == 0 {
        Ok(seq![])
    } else {
        match caps_of(cb.drop_last(), mode) {
            Err(e) => Err(e),
            Ok(p) => {
                let l = cb.last();
                if !starts_with(l, "recruit"@) {
                    Ok(p)
                } else {
                    match recruit_line(l, mode) {
                        None => Ok(p),
                        Some(Err(e)) => Err(e),
                        Some(Ok(x)) => Ok(p.push(x)),
                    }
                }
            },
        }
    }
}

/// A requirement where there is text for one.
fn parse_opt_requires(t: Option<Vec<char>>) -> (r: Result<Requires, ParseError>)
    ensures
        res_req(r) == opt_requirement(opt_view(t)),
{
    match t {
        None => Ok(Requires::Nothing),
        Some(x) => parse_requires(&x),
    }
}

fn quote_chars() -> (r: Vec<char>)
    ensures
        r@ == quote(),
{
    let mut r: Vec<char> = Vec::new();
    r.push('"');
    assert(r@ =~= quote());
    r
}

/// The unit that a recruit line names, after its keyword.
fn parse_recruit_fields(l: &Vec<char>, pool: bool) -> (r: Result<RecruitOption, ParseError>)
    ensures
        match (r, recruit_fields(l@, pool)) {
            (Ok(x), Ok(y)) => recruit_view(x) == y,
            (Err(e1), Err(e2)) => e1 == e2,
            _ => false,
        },
{
    let r = match split_word(l).1 {
        None => {
            return Err(ParseError::Missing("unit"));
        },
        Some(r) => r,
    };
    let q = quote_chars();
    let p0 = find_sep(&r, 0, &q, false);
    assert(r@.skip(0) =~= r@);
    if p0 != 0 {
        return Err(ParseError::Invalid("missing quotes around unit"));
    }
    if p0 >= r.len() {
        return Err(ParseError::Missing("unit"));
    }
    let a = subvec(&r, 1, r.len());
    assert(a@ =~= r@.skip(1));
    let p1 = find_sep(&a, 0, &q, false);
    assert(a@.skip(0) =~= a@);
    if p1 >= a.len() {
        return Err(ParseError::Missing("exp"));
    }
    let after = subvec(&a, p1 + 1, a.len());
    assert(after@ =~= a@.skip(p1 + 1));
    let rest = trim_chars(&after);
    if pool && (nth_word_of(&rest, 0).is_none() || nth_word_of(&rest, 1).is_none()
        || nth_word_of(&rest, 2).is_none()) {
        return Err(ParseError::Missing("recruit pool data"));
    }
    let e: usize = if pool {
        3
    } else {
        0
    };
    let w = match nth_word_of(&rest, e) {
        None => {
            return Err(ParseError::Missing("exp"));
        },
        Some(w) => w,
    };
    let exp = match parse_maybe_float_int(&w) {
        None => {
            return Err(ParseError::InvalidNumber("exp"));
        },
        Some(x) => x,
    };
    let req = parse_opt_requires(words_after_of(&rest, e + 1));
    match req {
        Err(err) => Err(err),
        Ok(req) => {
            let u = subvec(&a, 0, p1);
            assert(u@ =~= a@.take(p1 as int));
            Ok(RecruitOption { unit: string_of(&trim_chars(&u)), exp, req })
        },
    }
}

/// A line of a `capability` block.
fn parse_recruit(l: &Vec<char>, mode: ParserMode) -> (r: Option<Result<RecruitOption, ParseError>>)
    ensures
        match (r, recruit_line(l@, mode)) {
            (None, None) => true,
            (Some(Ok(x)), Some(Ok(y))) => recruit_view(x) == y,
            (Some(Err(e1)), Some(Err(e2))) => e1 == e2,
            _ => false,
        },
{
    match split_word(l).0 {
        None => Some(Err(ParseError::Invalid("recruit line"))),
        Some(kw) => {
            let plain = crate::chars::eq_str(&kw, "recruit");
            let pool = crate::chars::eq_str(&kw, "recruit_pool");
            if !plain && (mode != ParserMode::Medieval2 || !pool) {
                None
            } else {
                Some(parse_recruit_fields(l, pool))
            }
        },
    }
}

/// The units of a `capability` block.
fn caps_in(cb: &Vec<Vec<char>>, mode: ParserMode) -> (r: Result<Vec<RecruitOption>, ParseError>)
    ensures
        match (r, caps_of(views(cb@), mode)) {
            (Ok(x), Ok(y)) => recruits_view(x@) == y,
            (Err(e1), Err(e2)) => e1 == e2,
            _ => false,
        },
{
    let ghost cv = views(cb@);
    let mut out: Vec<RecruitOption> = Vec::new();
    let mut i: usize = 0;
    assert(cv.take(0) =~= Seq::<Seq<char>>::empty());
    assert(recruits_view(out@) =~= Seq::<RecruitView>::empty());
    while i < cb.len()
        invariant
            0 <= i <= cb.len(),
            cv == views(cb@),
            caps_of(cv.take(i as int), mode) == Ok::<Seq<RecruitView>, ParseError>(
                recruits_view(out@),
            ),
        decreases cb.len() - i,
    {
        let ghost pre = cv.take(i + 1);
        assert(pre.drop_last() =~= cv.take(i as int));
        assert(pre.last() == cb@[i as int]@);
        if starts_with_str(&cb[i], "recruit") {
            match parse_recruit(&cb[i], mode) {
                None => {},
                Some(Err(e)) => {
                    proof {
                        lemma_caps_err(cv, mode, i as int + 1, e);
                    }
                    return Err(e);
                },
                Some(Ok(x)) => {
                    let ghost before = recruits_view(out@);
                    out.push(x);
                    assert(recruits_view(out@) =~= before.push(recruit_view(x)));
                },
            }
        }
        i += 1;
    }
    assert(cv.take(cb.len() as int) =~= cv);
    Ok(out)
}

/// An error on the first lines of a block is the error on all of it.
proof fn lemma_caps_err(cb: Seq<Seq<char>>, mode: ParserMode, k: int, e: ParseError)
    requires
        0 <= k <= cb.len(),
        caps_of(cb.take(k), mode) == Err::<Seq<RecruitView>, ParseError>(e),
    ensures
        caps_of(cb, mode) == Err::<Seq<RecruitView>, ParseError>(e),
    decreases cb.len() - k,
{
    if k < cb.len() {
        assert(cb.take(k + 1).drop_last() =~= cb.take(k));
        lemma_caps_err(cb, mode, k + 1, e);
    } else {
        assert(cb.take(k) =~= cb);
    }
}

/// The requirement of a level, from its header: the text after the level's
/// name, or for Medieval II after a following `city` or `castle`.
pub open spec fn level_req(header: Seq<char>, mode: ParserMode) -> Result<ReqView, ParseError> {
    let r1 = after_word(header);
    let t = if mode == ParserMode::Medieval2 && match r1 {
        Some(x) => first_word(x) == Some("city"@) || first_word(x) == Some("castle"@),
        None => false,
    } {
        after_word(r1.unwrap())
    } else {
        r1
    };
    opt_requirement(t)
}

/// The body of a level from line `k`: a `capability` line followed by a
/// block gives the recruited units (the last such block counts), a line
/// that begins with `settlement_min` gives the least settlement (its second
/// word); other lines are passed over.
pub open spec fn body_from(
    lb: Seq<Seq<char>>,
    k: int,
    mode: ParserMode,
    caps: Seq<RecruitView>,
    min: Seq<char>,
) -> Result<(Seq<RecruitView>, Seq<char>), ParseError>
    decreases lb.len() - k,
{
    if k < 0 || k >= lb.len() {
        Ok((caps, min))
    } else {
        let l = lb[k];
        if l == "capability"@ {
            match block(lb, k + 1) {
                None => Err(ParseError::Invalid("block")),
                Some((cb, j)) => match caps_of(cb, mode) {
                    Err(e) => Err(e),
                    Ok(cs) => {
                        proof {
                            lemma_block_advances(lb, k + 1, 0, seq![]);
                        }
                        body_from(lb, j, mode, cs, min)
                    },
                },
            }
        } else if starts_with(l, "settlement_min"@) {
            let ws = fields(l, seq![], true);
            if ws.len() < 2 {
                Err(ParseError::Missing("settlement_min"))
            } else {
                body_from(lb, k + 1, mode, caps, ws[1])
            }
        } else {
            body_from(lb, k + 1, mode, caps, min)
        }
    }
}

/// The level whose header is line `k`: its requirement, then its block;
/// the level, and the index of the line after its block.
pub open spec fn level_def(blk: Seq<Seq<char>>, k: int, mode: ParserMode) -> Result<
    (BuildingView, int),
    ParseError,
> {
    match first_word(blk[k]) {
        None => Err(ParseError::Invalid("level header")),
        Some(_) => match level_req(blk[k], mode) {
            Err(e) => Err(e),
            Ok(req) => match block(blk, k + 1) {
                None => Err(ParseError::Invalid("block")),
                Some((lb, j)) => match body_from(lb, 0, mode, seq![], "village"@) {
                    Err(e) => Err(e),
                    Ok((caps, min)) => Ok((BuildingView { req, caps, min }, j)),
                },
            },
        },
    }
}

pub proof fn lemma_level_advances(blk: Seq<Seq<char>>, k: int, mode: ParserMode)
    ensures
        level_def(blk, k, mode) matches Ok((_, j)) ==> k < j <= blk.len(),
{
    lemma_block_advances(blk, k + 1, 0, seq![]);
}

/// The levels of a building's block from line `k` on, after those in
/// `acc`: each line must begin with the name of a level.
pub open spec fn levels_from(
    blk: Seq<Seq<char>>,
    k: int,
    levels: Seq<Seq<char>>,
    mode: ParserMode,
    acc: Seq<BuildingView>,
) -> Result<Seq<BuildingView>, ParseError>
    decreases blk.len() - k,
{
    if k < 0 || k >= blk.len() {
        Ok(acc)
    } else {
        let w = first_word(blk[k]);
        if w is Some && levels.contains(w.unwrap()) {
            match level_def(blk, k, mode) {
                Err(e) => Err(e),
                Ok((b, j)) => {
                    proof {
                        lemma_level_advances(blk, k, mode);
                    }
                    levels_from(blk, j, levels, mode, acc.push(b))
                },
            }
        } else {
            Err(ParseError::Invalid("unexpected line in levels"))
        }
    }
}

/// The words of a header after its keyword.
pub open spec fn header_words(l: Seq<char>) -> Seq<Seq<char>> {
    let ws = fields(l, seq![], true);
    if ws.len() == 0 {
        ws
    } else {
        ws.drop_first()
    }
}

/// The building whose `levels` header is line `i`: its levels, and the
/// index of the line after its block.
pub open spec fn building_def(ls: Seq<Seq<char>>, i: int, mode: ParserMode) -> Result<
    (Seq<BuildingView>, int),
    ParseError,
> {
    match block(ls, i + 1) {
        None => Err(ParseError::Invalid("block")),
        Some((blk, j)) => match levels_from(blk, 0, header_words(ls[i]), mode, seq![]) {
            Err(e) => Err(e),
            Ok(bs) => Ok((bs, j)),
        },
    }
}

/// The alias whose header is line `i`: its name (the header's second word)
/// and the requirement of the first line of its block that begins with
/// `requires`, and the index of the line after the block.
pub open spec fn alias_def(ls: Seq<Seq<char>>, i: int) -> Result<(Seq<char>, ReqView, int), ParseError> {
    let ws = fields(ls[i], seq![], true);
    if ws.len() < 2 {
        Err(ParseError::Missing("alias name"))
    } else {
        match block(ls, i + 1) {
            None => Err(ParseError::Invalid("block")),
            Some((blk, j)) => match first_with_prefix(blk, "requires"@) {
                None => Err(ParseError::Missing("requires line")),
                Some(l) => match requirement(l) {
                    Err(e) => Err(e),
                    Ok(r) => Ok((ws[1], r, j)),
                },
            },
        }
    }
}

/// The index of the last alias named `k`, or -1.
pub open spec fn key_index(al: Seq<(Seq<char>, ReqView)>, k: Seq<char>) -> int
    decreases al.len(),
{
    if al.len() == 0 {
        -1
    } else if al.last().0 == k {
        al.len() - 1
    } else {
        key_index(al.drop_last(), k)
    }
}

/// The aliases with `k` naming `v`: its entry replaced where there is one,
/// else added at the end.
pub open spec fn insert_alias(al: Seq<(Seq<char>, ReqView)>, k: Seq<char>, v: ReqView) -> Seq<
    (Seq<char>, ReqView),
> {
    let j = key_index(al, k);
    if j < 0 {
        al.push((k, v))
    } else {
        al.update(j, (k, v))
    }
}

/// The aliases that a game defines before its files are read: for Rome,
/// `marian_reforms` names its major event.
pub open spec fn initial_aliases(mode: ParserMode) -> Seq<(Seq<char>, ReqView)> {
    if mode == ParserMode::Medieval2 {
        seq![]
    } else {
        seq![("marian_reforms"@, ReqView::MajorEvent("marian_reforms"@))]
    }
}

/// The file from line `i` on, after the aliases `al` and the levels `bs`
/// read so far: a line that begins with `alias` defines an alias, one that
/// begins with `levels` a building, one that begins with `tags` opens a
/// block that is passed over; other lines are passed over.
pub open spec fn file_from(
    ls: Seq<Seq<char>>,
    i: int,
    mode: ParserMode,
    al: Seq<(Seq<char>, ReqView)>,
    bs: Seq<BuildingView>,
) -> Result<(Seq<(Seq<char>, ReqView)>, Seq<BuildingView>), ParseError>
    decreases ls.len() - i,
{
    if i < 0 || i >= ls.len() {
        Ok((al, bs))
    } else {
        let l = ls[i];
        if starts_with(l, "alias"@) {
            match alias_def(ls, i) {
                Err(e) => Err(e),
                Ok((k, v, j)) => {
                    proof {
                        lemma_block_advances(ls, i + 1, 0, seq![]);
                    }
                    file_from(ls, j, mode, insert_alias(al, k, v), bs)
                },
            }
        } else if starts_with(l, "levels"@) {
            match building_def(ls, i, mode) {
                Err(e) => Err(e),
                Ok((b, j)) => {
                    proof {
                        lemma_block_advances(ls, i + 1, 0, seq![]);
                    }
                    file_from(ls, j, mode, al, bs + b)
                },
            }
        } else if starts_with(l, "tags"@) {
            proof {
                if i + 1 < ls.len() {
                    lemma_skip_advances(ls, i + 1, 0);
                }
            }
            file_from(ls, skip_at(ls, i + 1, 0), mode, al, bs)
        } else {
            file_from(ls, i + 1, mode, al, bs)
        }
    }
}

/// What `export_descr_buildings.txt` defines: its aliases, each name once,
/// and the levels of its buildings in order.
pub open spec fn buildings_file(s: Seq<char>, mode: ParserMode) -> Result<
    (Seq<(Seq<char>, ReqView)>, Seq<BuildingView>),
    ParseError,
> {
    file_from(crate::chars::clean_lines(s), 0, mode, initial_aliases(mode), seq![])
}

/// The requirement of a level, from its header.
fn parse_level_req(header: &Vec<char>, mode: ParserMode) -> (r: Result<Requires, ParseError>)
    ensures
        res_req(r) == level_req(header@, mode),
{
    let r1 = split_word(header).1;
    let mut t = r1;
    if mode == ParserMode::Medieval2 {
        if let Some(x) = &t {
            let (w, rest) = split_word(x);
            let site = match &w {
                Some(w) => crate::chars::eq_str(w, "city") || crate::chars::eq_str(w, "castle"),
                None => false,
            };
            if site {
                t = rest;
            }
        }
    }
    parse_opt_requires(t)
}

/// The units of the `capability` block that starts at line `k`, and the
/// index of the line after it.
fn parse_caps(lb: &Vec<Vec<char>>, k: usize, mode: ParserMode) -> (r: Result<
    (Vec<RecruitOption>, usize),
    ParseError,
>)
    ensures
        match (r, block(views(lb@), k as int)) {
            (Ok((cs, j)), Some((cb, jv))) => caps_of(cb, mode) == Ok::<
                Seq<RecruitView>,
                ParseError,
            >(recruits_view(cs@)) && j == jv,
            (Err(e), Some((cb, _))) => caps_of(cb, mode) == Err::<Seq<RecruitView>, ParseError>(e),
            (Err(e), None) => e == ParseError::Invalid("block"),
            _ => false,
        },
{
    let (cb, j) = match get_block(lb, k) {
        Err(e) => {
            return Err(e);
        },
        Ok(x) => x,
    };
    match caps_in(&cb, mode) {
        Err(e) => Err(e),
        Ok(cs) => Ok((cs, j)),
    }
}

/// The units and the least settlement of a level's block.
fn parse_level_body(lb: &Vec<Vec<char>>, mode: ParserMode) -> (r: Result<
    (Vec<RecruitOption>, String),
    ParseError,
>)
    ensures
        match (r, body_from(views(lb@), 0, mode, seq![], "village"@)) {
            (Ok((cs, m)), Ok((cv, mv))) => recruits_view(cs@) == cv && m@ == mv,
            (Err(e1), Err(e2)) => e1 == e2,
            _ => false,
        },
{
    let ghost lv = views(lb@);
    let mut caps: Vec<RecruitOption> = Vec::new();
    let mut min = string_of(&crate::chars::chars_of("village"));
    let mut k: usize = 0;
    assert(recruits_view(caps@) =~= Seq::<RecruitView>::empty());
    while k < lb.len()
        invariant
            lv == views(lb@),
            body_from(lv, k as int, mode, recruits_view(caps@), min@) == body_from(
                lv,
                0,
                mode,
                seq![],
                "village"@,
            ),
        decreases lb.len() - k,
    {
        let l = &lb[k];
        assert(lv[k as int] == l@);
        if is_line(l, "capability") {
            proof {
                lemma_block_advances(lv, k + 1, 0, seq![]);
            }
            match parse_caps(lb, k + 1, mode) {
                Err(e) => {
                    return Err(e);
                },
                Ok((cs, j)) => {
                    caps = cs;
                    k = j;
                },
            }
        } else if starts_with_str(l, "settlement_min") {
            let seps: Vec<char> = Vec::new();
            assert(seps@ =~= Seq::<char>::empty());
            let ws = split_fields(l, &seps, true);
            if ws.len() < 2 {
                return Err(ParseError::Missing("settlement_min"));
            }
            assert(views(ws@)[1] == ws@[1]@);
            min = string_of(&ws[1]);
            k += 1;
        } else {
            k += 1;
        }
    }
    Ok((caps, min))
}

/// The level whose header is line `k` of a building's block, and the index
/// of the line after its block.
fn parse_level(blk: &Vec<Vec<char>>, k: usize, mode: ParserMode) -> (r: Result<
    (Building, usize),
    ParseError,
>)
    requires
        k < blk.len(),
    ensures
        match (r, level_def(views(blk@), k as int, mode)) {
            (Ok((b, j)), Ok((bv, jv))) => building_view(b) == bv && j == jv,
            (Err(e1), Err(e2)) => e1 == e2,
            _ => false,
        },
{
    let header = &blk[k];
    assert(views(blk@)[k as int] == header@);
    if split_word(header).0.is_none() {
        return Err(ParseError::Invalid("level header"));
    }
    let req = match parse_level_req(header, mode) {
        Err(e) => {
            return Err(e);
        },
        Ok(r) => r,
    };
    let (lb, j) = match get_block(blk, k + 1) {
        Err(e) => {
            return Err(e);
        },
        Ok(x) => x,
    };
    match parse_level_body(&lb, mode) {
        Err(e) => Err(e),
        Ok((caps, min)) => Ok((Building { req, caps, min }, j)),
    }
}

/// Whether `w` is one of `ws`.
fn contains_word(ws: &Vec<Vec<char>>, w: &Vec<char>) -> (b: bool)
    ensures
        b == views(ws@).contains(w@),
{
    let mut i: usize = 0;
    while i < ws.len()
        invariant
            0 <= i <= ws.len(),
            forall|j: int| 0 <= j < i ==> views(ws@)[j] != w@,
        decreases ws.len() - i,
    {
        if crate::chars::eq_chars(&ws[i], w) {
            assert(views(ws@)[i as int] == w@);
            return true;
        }
        i += 1;
    }
    false
}

/// The words of a header after its keyword.
fn header_words_of(l: &Vec<char>) -> (r: Vec<Vec<char>>)
    ensures
        views(r@) == header_words(l@),
{
    let seps: Vec<char> = Vec::new();
    assert(seps@ =~= Seq::<char>::empty());
    let ws = split_fields(l, &seps, true);
    if ws.len() == 0 {
        ws
    } else {
        let mut r: Vec<Vec<char>> = Vec::new();
        let mut i: usize = 1;
        while i < ws.len()
            invariant
                1 <= i <= ws.len(),
                views(r@) == views(ws@).subrange(1, i as int),
            decreases ws.len() - i,
        {
            let ghost before = views(r@);
            r.push(copy_line(&ws[i]));
            assert(views(r@) =~= before.push(ws@[i as int]@));
            assert(views(r@) =~= views(ws@).subrange(1, i + 1));
            i += 1;
        }
        assert(views(ws@).subrange(1, ws.len() as int) =~= views(ws@).drop_first());
        r
    }
}

/// The building whose `levels` header is line `i`: its levels, and the
/// index of the line after its block.
fn parse_building(ls: &Vec<Vec<char>>, i: usize, mode: ParserMode) -> (r: Result<
    (Vec<Building>, usize),
    ParseError,
>)
    requires
        i < ls.len(),
    ensures
        match (r, building_def(views(ls@), i as int, mode)) {
            (Ok((bs, j)), Ok((bv, jv))) => buildings_view(bs@) == bv && j == jv,
            (Err(e1), Err(e2)) => e1 == e2,
            _ => false,
        },
{
    assert(views(ls@)[i as int] == ls@[i as int]@);
    let levels = header_words_of(&ls[i]);
    let (blk, j) = match get_block(ls, i + 1) {
        Err(e) => {
            return Err(e);
        },
        Ok(x) => x,
    };
    match parse_levels(&blk, &levels, mode) {
        Err(e) => Err(e),
        Ok(out) => Ok((out, j)),
    }
}

/// The levels of a building's block.
fn parse_levels(blk: &Vec<Vec<char>>, levels: &Vec<Vec<char>>, mode: ParserMode) -> (r: Result<
    Vec<Building>,
    ParseError,
>)
    ensures
        match (r, levels_from(views(blk@), 0, views(levels@), mode, seq![])) {
            (Ok(bs), Ok(bv)) => buildings_view(bs@) == bv,
            (Err(e1), Err(e2)) => e1 == e2,
            _ => false,
        },
{
    let ghost bv = views(blk@);
    let ghost lvs = views(levels@);
    let mut out: Vec<Building> = Vec::new();
    let mut k: usize = 0;
    assert(buildings_view(out@) =~= Seq::<BuildingView>::empty());
    while k < blk.len()
        invariant
            bv == views(blk@),
            lvs == views(levels@),
            levels_from(bv, k as int, lvs, mode, buildings_view(out@)) == levels_from(
                bv,
                0,
                lvs,
                mode,
                seq![],
            ),
        decreases blk.len() - k,
    {
        assert(bv[k as int] == blk@[k as int]@);
        let w = split_word(&blk[k]).0;
        let known = match &w {
            Some(w) => contains_word(levels, w),
            None => false,
        };
        if !known {
            return Err(ParseError::Invalid("unexpected line in levels"));
        }
        proof {
            lemma_level_advances(bv, k as int, mode);
        }
        match parse_level(blk, k, mode) {
            Err(e) => {
                return Err(e);
            },
            Ok((b, k2)) => {
                let ghost before = buildings_view(out@);
                out.push(b);
                assert(buildings_view(out@) =~= before.push(building_view(b)));
                k = k2;
            },
        }
    }
    Ok(out)
}

/// The alias whose header is line `i`: its name and requirement, and the
/// index of the line after its block.
fn parse_alias(ls: &Vec<Vec<char>>, i: usize) -> (r: Result<(String, Requires, usize), ParseError>)
    requires
        i < ls.len(),
    ensures
        match (r, alias_def(views(ls@), i as int)) {
            (Ok((k, v, j)), Ok((kv, vv, jv))) => k@ == kv && req_view(v) == vv && j == jv,
            (Err(e1), Err(e2)) => e1 == e2,
            _ => false,
        },
{
    assert(views(ls@)[i as int] == ls@[i as int]@);
    let seps: Vec<char> = Vec::new();
    assert(seps@ =~= Seq::<char>::empty());
    let ws = split_fields(&ls[i], &seps, true);
    if ws.len() < 2 {
        return Err(ParseError::Missing("alias name"));
    }
    assert(views(ws@)[1] == ws@[1]@);
    let (blk, j) = match get_block(ls, i + 1) {
        Err(e) => {
            return Err(e);
        },
        Ok(x) => x,
    };
    match find_with_prefix(&blk, "requires") {
        None => Err(ParseError::Missing("requires line")),
        Some(l) => match parse_requires(&l) {
            Err(e) => Err(e),
            Ok(v) => Ok((string_of(&ws[1]), v, j)),
        },
    }
}

/// The aliases as mathematical values.
pub open spec fn aliases_view(al: Seq<(String, Requires)>) -> Seq<(Seq<char>, ReqView)> {
    Seq::new(al.len(), |i: int| (al[i].0@, req_view(al[i].1)))
}

/// `k` made to name `v`: its entry replaced, or one added.
fn insert_alias_into(al: &mut Vec<(String, Requires)>, k: String, v: Requires)
    ensures
        aliases_view(final(al)@) == insert_alias(aliases_view(old(al)@), k@, req_view(v)),
{
    let ghost av = aliases_view(al@);
    let mut j = al.len();
    assert(av.take(j as int) =~= av);
    while j > 0
        invariant
            j <= al.len(),
            av == aliases_view(al@),
            av == aliases_view(old(al)@),
            key_index(av, k@) == key_index(av.take(j as int), k@),
        decreases j,
    {
        let ghost pre = av.take(j as int);
        assert(pre.drop_last() =~= av.take(j - 1));
        assert(pre.last() == av[j - 1]);
        if al[j - 1].0 == k {
            assert(av[j - 1].0 == k@);
            assert(key_index(av, k@) == j - 1);
            let ghost v_view = req_view(v);
            al.set(j - 1, (k, v));
            assert(aliases_view(al@) =~= av.update(j - 1, (k@, v_view)));
            return;
        }
        j -= 1;
    }
    assert(av.take(0) =~= Seq::<(Seq<char>, ReqView)>::empty());
    let ghost v_view = req_view(v);
    let ghost kv = k@;
    al.push((k, v));
    assert(aliases_view(al@) =~= av.push((kv, v_view)));
}

/// The aliases that a game defines before its files are read.
fn initial_alias_list(mode: ParserMode) -> (r: Vec<(String, Requires)>)
    ensures
        aliases_view(r@) == initial_aliases(mode),
{
    let mut r: Vec<(String, Requires)> = Vec::new();
    if mode != ParserMode::Medieval2 {
        let id = crate::chars::chars_of("marian_reforms");
        r.push((string_of(&id), Requires::MajorEvent(string_of(&id))));
    }
    assert(aliases_view(r@) =~= initial_aliases(mode));
    r
}

/// The aliases and the building levels of `export_descr_buildings.txt`.
pub fn parse(data: &str, mode: ParserMode) -> (r: Result<
    (Vec<(String, Requires)>, Vec<Building>),
    ParseError,
>)
    ensures
        match (r, buildings_file(data@, mode)) {
            (Ok((al, bs)), Ok((alv, bsv))) => aliases_view(al@) == alv && buildings_view(bs@)
                == bsv,
            (Err(e1), Err(e2)) => e1 == e2,
            _ => false,
        },
{
    let ls = crate::chars::clean_lines_of(data);
    let ghost lv = views(ls@);
    let mut aliases = initial_alias_list(mode);
    let mut buildings: Vec<Building> = Vec::new();
    let mut i: usize = 0;
    assert(buildings_view(buildings@) =~= Seq::<BuildingView>::empty());
    while i < ls.len()
        invariant
            lv == views(ls@),
            file_from(lv, i as int, mode, aliases_view(aliases@), buildings_view(buildings@))
                == buildings_file(data@, mode),
        decreases ls.len() - i,
    {
        let l = &ls[i];
        assert(lv[i as int] == l@);
        if starts_with_str(l, "alias") {
            proof {
                lemma_block_advances(lv, i + 1, 0, seq![]);
            }
            match parse_alias(&ls, i) {
                Err(e) => {
                    return Err(e);
                },
                Ok((k, v, j)) => {
                    insert_alias_into(&mut aliases, k, v);
                    i = j;
                },
            }
        } else if starts_with_str(l, "levels") {
            proof {
                lemma_block_advances(lv, i + 1, 0, seq![]);
            }
            match parse_building(&ls, i, mode) {
                Err(e) => {
                    return Err(e);
                },
                Ok((mut bs, j)) => {
                    let ghost before = buildings_view(buildings@);
                    let ghost added = buildings_view(bs@);
                    buildings.append(&mut bs);
                    assert(buildings_view(buildings@) =~= before + added);
                    i = j;
                },
            }
        } else if starts_with_str(l, "tags") {
            proof {
                if i + 1 < ls.len() {
                    lemma_skip_advances(lv, i + 1, 0);
                }
            }
            i = skip_block(&ls, i + 1);
        } else {
            i += 1;
        }
    }
    Ok((aliases, buildings))
}

/// Whether no two aliases have the same name.
pub open spec fn names_unique(al: Seq<(Seq<char>, ReqView)>) -> bool {
    forall|i: int, j: int| 0 <= i < j < al.len() ==> #[trigger] al[i].0 != #[trigger] al[j].0
}

proof fn lemma_key_index(al: Seq<(Seq<char>, ReqView)>, k: Seq<char>)
    ensures
        -1 <= key_index(al, k) < al.len(),
        key_index(al, k) >= 0 ==> al[key_index(al, k)].0 == k,
        key_index(al, k) < 0 ==> forall|i: int| 0 <= i < al.len() ==> #[trigger] al[i].0 != k,
    decreases al.len(),
{
    if al.len() > 0 && al.last().0 != k {
        lemma_key_index(al.drop_last(), k);
        assert forall|i: int| 0 <= i < al.len() - 1 implies #[trigger] al[i] == al.drop_last()[i] by {}
    }
}

proof fn lemma_insert_unique(al: Seq<(Seq<char>, ReqView)>, k: Seq<char>, v: ReqView)
    requires
        names_unique(al),
    ensures
        names_unique(insert_alias(al, k, v)),
{
    lemma_key_index(al, k);
    let r = insert_alias(al, k, v);
    assert forall|i: int, j: int| 0 <= i < j < r.len() implies #[trigger] r[i].0 != #[trigger] r[j].0 by {
        if key_index(al, k) < 0 {
            if j == al.len() {
                assert(al[i].0 != k);
            } else {
                assert(al[i].0 != al[j].0);
            }
        } else {
            let x = key_index(al, k);
            if i == x {
                assert(al[j].0 != al[x].0);
            } else if j == x {
                assert(al[i].0 != al[x].0);
            } else {
                assert(al[i].0 != al[j].0);
            }
        }
    }
}

proof fn lemma_file_unique(
    ls: Seq<Seq<char>>,
    i: int,
    mode: ParserMode,
    al: Seq<(Seq<char>, ReqView)>,
    bs: Seq<BuildingView>,
)
    requires
        names_unique(al),
    ensures
        file_from(ls, i, mode, al, bs) matches Ok((al2, _)) ==> names_unique(al2),
    decreases ls.len() - i,
{
    if 0 <= i < ls.len() {
        let l = ls[i];
        lemma_block_advances(ls, i + 1, 0, seq![]);
        if starts_with(l, "alias"@) {
            if let Ok((k, v, j)) = alias_def(ls, i) {
                lemma_insert_unique(al, k, v);
                lemma_file_unique(ls, j, mode, insert_alias(al, k, v), bs);
            }
        } else if starts_with(l, "levels"@) {
            if let Ok((b, j)) = building_def(ls, i, mode) {
                lemma_file_unique(ls, j, mode, al, bs + b);
            }
        } else if starts_with(l, "tags"@) {
            if i + 1 < ls.len() {
                lemma_skip_advances(ls, i + 1, 0);
            }
            lemma_file_unique(ls, skip_at(ls, i + 1, 0), mode, al, bs);
        } else {
            lemma_file_unique(ls, i + 1, mode, al, bs);
        }
    }
}

/// The aliases of a buildings file are a map: no two have the same name,
/// a later definition of a name replacing the earlier one.
pub proof fn law_alias_names_unique(s: Seq<char>, mode: ParserMode)
    ensures
        buildings_file(s, mode) matches Ok((al, _)) ==> names_unique(al),
{
    lemma_file_unique(crate::chars::clean_lines(s), 0, mode, initial_aliases(mode), seq![]);
}

} // verus!
