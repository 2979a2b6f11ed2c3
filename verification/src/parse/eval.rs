//! Evaluating requirements against what is known of a campaign: which
//! faction recruits, which resources a region has, which events happened.
//! What is not known leaves a requirement undecided, and an undecided
//! requirement is taken to hold.
use vstd::prelude::*;

use crate::chars::{chars_of, eq_chars, string_of};
use crate::parse::descr_regions::Region;
use crate::parse::descr_sm_factions::Faction;
use crate::parse::export_descr_buildings::Requires;

verus! {

/// Known answers for some choices (by name), and the answer for any other.
#[derive(Debug)]
pub struct EvaluatorChoices {
    pub map: Vec<(String, bool)>,
    pub default: Option<bool>,
}

/// What is known of a campaign: answers for factions, resources, hidden
/// resources and major events, and an answer for every other condition.
#[derive(Debug)]
pub struct Evaluator {
    pub default: Option<bool>,
    pub faction: Option<EvaluatorChoices>,
    pub resource: Option<EvaluatorChoices>,
    pub hidden_resource: Option<EvaluatorChoices>,
    pub major_event: Option<EvaluatorChoices>,
}

impl Default for Evaluator {
    fn default() -> (e: Self)
        ensures
            e.default is None,
            e.faction is None,
            e.resource is None,
            e.hidden_resource is None,
            e.major_event is None,
    {
        Evaluator {
            default: None,
            faction: None,
            resource: None,
            hidden_resource: None,
            major_event: None,
        }
    }
}

/// The answer that the map holds for `key`: that of its last entry, as in a
/// map filled in order.
pub open spec fn lookup_choice(m: Seq<(String, bool)>, key: Seq<char>) -> Option<bool>
    decreases m.len(),
{
    if m.len() == 0 {
        None
    } else if m.last().0@ == key {
        Some(m.last().1)
    } else {
        lookup_choice(m.drop_last(), key)
    }
}

/// The answer for `key`: the map's, else the choices' default.
pub open spec fn choice_of(c: Option<EvaluatorChoices>, key: Seq<char>) -> Option<bool> {
    match c {
        None => None,
        Some(ch) => match lookup_choice(ch.map@, key) {
            Some(b) => Some(b),
            None => ch.default,
        },
    }
}

/// The requirement that an alias names: that of its last entry.
pub open spec fn lookup_alias(al: Seq<(String, Requires)>, id: Seq<char>) -> Option<Requires>
    decreases al.len(),
{
    if al.len() == 0 {
        None
    } else if al.last().0@ == id {
        Some(al.last().1)
    } else {
        lookup_alias(al.drop_last(), id)
    }
}

/// The answers known for a list of factions, in order.
pub open spec fn faction_knowns(fs: Seq<String>, c: Option<EvaluatorChoices>) -> Seq<bool>
    decreases fs.len(),
{
    if fs.len() == 0 {
        seq![]
    } else {
        let p = faction_knowns(fs.drop_last(), c);
        match choice_of(c, fs.last()@) {
            Some(b) => p.push(b),
            None => p,
        }
    }
}

pub open spec fn any_true(k: Seq<bool>) -> bool {
    exists|i: int| 0 <= i < k.len() && k[i]
}

pub open spec fn all_true(k: Seq<bool>) -> bool {
    forall|i: int| 0 <= i < k.len() ==> k[i]
}

/// A requirement's answer, following aliases at most `d` deep: `None` where
/// it is undecided. Lists of factions and `or` decide where any part
/// decides, and hold where a deciding part holds; `and` decides where any
/// part decides, and holds where every deciding part holds.
pub open spec fn eval_req(r: Requires, al: Seq<(String, Requires)>, ev: Evaluator, d: nat) -> Option<
    bool,
>
    decreases d, r,
{
    match r {
        Requires::False => Some(false),
        Requires::Resource { id, factionwide } => if !factionwide {
            choice_of(ev.resource, id@)
        } else {
            ev.default
        },
        Requires::HiddenResource { id, factionwide } => if !factionwide {
            choice_of(ev.hidden_resource, id@)
        } else {
            ev.default
        },
        Requires::MajorEvent(e) => choice_of(ev.major_event, e@),
        Requires::Factions(fs) => {
            let k = faction_knowns(fs@, ev.faction);
            if k.len() == 0 {
                None
            } else {
                Some(any_true(k))
            }
        },
        Requires::IsPlayer => Some(true),
        Requires::Alias(id) => if d == 0 {
            None
        } else {
            match lookup_alias(al, id@) {
                None => None,
                Some(b) => eval_req(b, al, ev, (d - 1) as nat),
            }
        },
        Requires::Not(x) => match eval_req(*x, al, ev, d) {
            Some(b) => Some(!b),
            None => None,
        },
        Requires::And(items) => {
            let k = eval_knowns(items@, al, ev, d);
            if k.len() == 0 {
                None
            } else {
                Some(all_true(k))
            }
        },
        Requires::Or(items) => {
            let k = eval_knowns(items@, al, ev, d);
            if k.len() == 0 {
                None
            } else {
                Some(any_true(k))
            }
        },
        _ => ev.default,
    }
}

/// The answers of the parts that decide, in order.
pub open spec fn eval_knowns(rs: Seq<Requires>, al: Seq<(String, Requires)>, ev: Evaluator, d: nat) -> Seq<
    bool,
>
    decreases d, rs,
{
    if rs.len() == 0 {
        seq![]
    } else {
        let p = eval_knowns(rs.drop_last(), al, ev, d);
        match eval_req(rs.last(), al, ev, d) {
            Some(b) => p.push(b),
            None => p,
        }
    }
}

/// Whether every alias that the requirement reaches is defined, with chains
/// of aliases at most `d` long.
pub open spec fn resolves(r: Requires, al: Seq<(String, Requires)>, d: nat) -> bool
    decreases d, r,
{
    match r {
        Requires::Alias(id) => d > 0 && match lookup_alias(al, id@) {
            None => false,
            Some(b) => resolves(b, al, (d - 1) as nat),
        },
        Requires::Not(x) => resolves(*x, al, d),
        Requires::And(items) => resolves_all(items@, al, d),
        Requires::Or(items) => resolves_all(items@, al, d),
        _ => true,
    }
}

pub open spec fn resolves_all(rs: Seq<Requires>, al: Seq<(String, Requires)>, d: nat) -> bool
    decreases d, rs,
{
    if rs.len() == 0 {
        true
    } else {
        resolves_all(rs.drop_last(), al, d) && resolves(rs.last(), al, d)
    }
}

/// Whether every alias that the requirement reaches is defined and no chain
/// of aliases runs in a circle.
pub open spec fn well_founded(r: Requires, al: Seq<(String, Requires)>) -> bool {
    exists|d: nat| resolves(r, al, d)
}

pub open spec fn alias_depth(r: Requires, al: Seq<(String, Requires)>) -> nat {
    choose|d: nat| resolves(r, al, d)
}

/// What a requirement comes to: its answer, or `true` where nothing decides it.
pub open spec fn evaluation(r: Requires, al: Seq<(String, Requires)>, ev: Evaluator) -> bool {
    match eval_req(r, al, ev, alias_depth(r, al)) {
        Some(b) => b,
        None => true,
    }
}

/// Following aliases deeper changes nothing once they all resolve.
pub proof fn lemma_depth(r: Requires, al: Seq<(String, Requires)>, ev: Evaluator, d1: nat, d2: nat)
    requires
        resolves(r, al, d1),
        d1 <= d2,
    ensures
        resolves(r, al, d2),
        eval_req(r, al, ev, d1) == eval_req(r, al, ev, d2),
    decreases d1, r,
{
    match r {
        Requires::Alias(id) => {
            let b = lookup_alias(al, id@).unwrap();
            lemma_depth(b, al, ev, (d1 - 1) as nat, (d2 - 1) as nat);
        },
        Requires::Not(x) => {
            lemma_depth(*x, al, ev, d1, d2);
        },
        Requires::And(items) => {
            lemma_depth_all(items@, al, ev, d1, d2);
        },
        Requires::Or(items) => {
            lemma_depth_all(items@, al, ev, d1, d2);
        },
        _ => {},
    }
}

pub proof fn lemma_depth_all(
    rs: Seq<Requires>,
    al: Seq<(String, Requires)>,
    ev: Evaluator,
    d1: nat,
    d2: nat,
)
    requires
        resolves_all(rs, al, d1),
        d1 <= d2,
    ensures
        resolves_all(rs, al, d2),
        eval_knowns(rs, al, ev, d1) == eval_knowns(rs, al, ev, d2),
    decreases d1, rs,
{
    if rs.len() > 0 {
        lemma_depth_all(rs.drop_last(), al, ev, d1, d2);
        lemma_depth(rs.last(), al, ev, d1, d2);
    }
}

/// The verdict at any depth at which the requirement resolves.
pub proof fn lemma_evaluation_at(r: Requires, al: Seq<(String, Requires)>, ev: Evaluator, d: nat)
    requires
        resolves(r, al, d),
    ensures
        evaluation(r, al, ev) == match eval_req(r, al, ev, d) {
            Some(b) => b,
            None => true,
        },
{
    let d0 = alias_depth(r, al);
    assert(resolves(r, al, d0));
    if d0 <= d {
        lemma_depth(r, al, ev, d0, d);
    } else {
        lemma_depth(r, al, ev, d, d0);
    }
}

/// A requirement's answer with every alias followed: `None` where nothing
/// decides it.
pub open spec fn answer(r: Requires, al: Seq<(String, Requires)>, ev: Evaluator) -> Option<bool> {
    eval_req(r, al, ev, alias_depth(r, al))
}

/// The answers of the parts that decide, in order, every alias followed.
pub open spec fn answer_knowns(rs: Seq<Requires>, al: Seq<(String, Requires)>, ev: Evaluator) -> Seq<bool>
    decreases rs.len(),
{
    if rs.len() == 0 {
        seq![]
    } else {
        let p = answer_knowns(rs.drop_last(), al, ev);
        match answer(rs.last(), al, ev) {
            Some(b) => p.push(b),
            None => p,
        }
    }
}

/// The answer at any depth at which the requirement resolves.
proof fn lemma_answer_at(r: Requires, al: Seq<(String, Requires)>, ev: Evaluator, d: nat)
    requires
        resolves(r, al, d),
    ensures
        answer(r, al, ev) == eval_req(r, al, ev, d),
{
    let d0 = alias_depth(r, al);
    assert(resolves(r, al, d0));
    if d0 <= d {
        lemma_depth(r, al, ev, d0, d);
    } else {
        lemma_depth(r, al, ev, d, d0);
    }
}

/// The parts' answers at any depth at which they all resolve.
proof fn lemma_answer_knowns_at(rs: Seq<Requires>, al: Seq<(String, Requires)>, ev: Evaluator, d: nat)
    requires
        resolves_all(rs, al, d),
    ensures
        answer_knowns(rs, al, ev) == eval_knowns(rs, al, ev, d),
    decreases rs.len(),
{
    if rs.len() > 0 {
        lemma_answer_knowns_at(rs.drop_last(), al, ev, d);
        lemma_answer_at(rs.last(), al, ev, d);
    }
}

/// A requirement holds where its answer is `true` or where nothing decides
/// it: an unknown counts as met.
pub proof fn law_unknown_counts_as_met(r: Requires, al: Seq<(String, Requires)>, ev: Evaluator)
    requires
        well_founded(r, al),
    ensures
        evaluation(r, al, ev) == match answer(r, al, ev) {
            Some(b) => b,
            None => true,
        },
{
}

/// An alias answers as the requirement it names.
pub proof fn law_alias_answers_as_its_body(id: String, al: Seq<(String, Requires)>, ev: Evaluator)
    requires
        well_founded(Requires::Alias(id), al),
    ensures
        lookup_alias(al, id@) is Some,
        well_founded(lookup_alias(al, id@).unwrap(), al),
        answer(Requires::Alias(id), al, ev) == answer(lookup_alias(al, id@).unwrap(), al, ev),
{
    let d = alias_depth(Requires::Alias(id), al);
    assert(resolves(Requires::Alias(id), al, d));
    let b = lookup_alias(al, id@).unwrap();
    assert(resolves(b, al, (d - 1) as nat));
    lemma_answer_at(b, al, ev, (d - 1) as nat);
}

/// `and` is decided where some part is, and then holds where every deciding
/// part holds; `or` is decided likewise and holds where some deciding part
/// holds.
pub proof fn law_and_or_answers(items: Vec<Requires>, al: Seq<(String, Requires)>, ev: Evaluator)
    requires
        well_founded(Requires::And(items), al),
    ensures
        well_founded(Requires::Or(items), al),
        answer(Requires::And(items), al, ev) == if answer_knowns(items@, al, ev).len() == 0 {
            None
        } else {
            Some(all_true(answer_knowns(items@, al, ev)))
        },
        answer(Requires::Or(items), al, ev) == if answer_knowns(items@, al, ev).len() == 0 {
            None
        } else {
            Some(any_true(answer_knowns(items@, al, ev)))
        },
{
    let d = alias_depth(Requires::And(items), al);
    assert(resolves(Requires::And(items), al, d));
    assert(resolves(Requires::Or(items), al, d));
    lemma_answer_knowns_at(items@, al, ev, d);
    lemma_answer_at(Requires::Or(items), al, ev, d);
}

/// A list of factions is decided where the evaluator knows some of them,
/// and then holds where it holds for one of those.
pub proof fn law_factions_answer(fs: Vec<String>, al: Seq<(String, Requires)>, ev: Evaluator)
    ensures
        answer(Requires::Factions(fs), al, ev) == if faction_knowns(fs@, ev.faction).len() == 0 {
            None
        } else {
            Some(any_true(faction_knowns(fs@, ev.faction)))
        },
{
}

/// Negating a requirement twice changes no verdict.
pub proof fn law_double_negation(r: Requires, al: Seq<(String, Requires)>, ev: Evaluator)
    requires
        well_founded(r, al),
    ensures
        well_founded(Requires::Not(Box::new(Requires::Not(Box::new(r)))), al),
        evaluation(Requires::Not(Box::new(Requires::Not(Box::new(r)))), al, ev) == evaluation(
            r,
            al,
            ev,
        ),
{
    let n1 = Requires::Not(Box::new(r));
    let nn = Requires::Not(Box::new(n1));
    let d = alias_depth(r, al);
    assert(resolves(r, al, d));
    assert(resolves(n1, al, d));
    assert(resolves(nn, al, d));
    assert(eval_req(n1, al, ev, d) == match eval_req(r, al, ev, d) {
        Some(b) => Some(!b),
        None => None::<bool>,
    });
    assert(eval_req(nn, al, ev, d) == eval_req(r, al, ev, d));
    lemma_evaluation_at(nn, al, ev, d);
    lemma_evaluation_at(r, al, ev, d);
}

pub open spec fn negated(k: Seq<bool>) -> Seq<bool> {
    Seq::new(k.len(), |i: int| !k[i])
}

/// The parts of a list of negations decide where the parts they negate
/// decide, with the opposite answers.
proof fn lemma_knowns_negated(
    items: Seq<Requires>,
    nots: Seq<Requires>,
    al: Seq<(String, Requires)>,
    ev: Evaluator,
    d: nat,
)
    requires
        nots.len() == items.len(),
        forall|i: int| 0 <= i < items.len() ==> nots[i] == Requires::Not(Box::new(items[i])),
    ensures
        eval_knowns(nots, al, ev, d) == negated(eval_knowns(items, al, ev, d)),
    decreases items.len(),
{
    if items.len() > 0 {
        let n = items.len() - 1;
        assert forall|i: int| 0 <= i < items.drop_last().len() implies nots.drop_last()[i]
            == Requires::Not(Box::new(#[trigger] items.drop_last()[i])) by {
            assert(nots.drop_last()[i] == nots[i]);
            assert(items.drop_last()[i] == items[i]);
        }
        lemma_knowns_negated(items.drop_last(), nots.drop_last(), al, ev, d);
        assert(nots[n] == Requires::Not(Box::new(items[n])));
        assert(nots.last() == Requires::Not(Box::new(items.last())));
        let p = eval_knowns(items.drop_last(), al, ev, d);
        let q = eval_knowns(nots.drop_last(), al, ev, d);
        assert(q == negated(p));
        assert(eval_req(nots.last(), al, ev, d) == match eval_req(items.last(), al, ev, d) {
            Some(b) => Some(!b),
            None => None::<bool>,
        });
        match eval_req(items.last(), al, ev, d) {
            Some(b) => {
                assert(negated(p.push(b)) =~= negated(p).push(!b));
                assert(eval_knowns(items, al, ev, d) == p.push(b));
                assert(eval_knowns(nots, al, ev, d) == q.push(!b));
            },
            None => {
                assert(eval_knowns(items, al, ev, d) == p);
                assert(eval_knowns(nots, al, ev, d) == q);
            },
        }
    } else {
        assert(negated(seq![]) =~= Seq::<bool>::empty());
    }
}

proof fn lemma_resolves_negated(
    items: Seq<Requires>,
    nots: Seq<Requires>,
    al: Seq<(String, Requires)>,
    d: nat,
)
    requires
        nots.len() == items.len(),
        forall|i: int| 0 <= i < items.len() ==> nots[i] == Requires::Not(Box::new(items[i])),
        resolves_all(items, al, d),
    ensures
        resolves_all(nots, al, d),
    decreases items.len(),
{
    if items.len() > 0 {
        let n = items.len() - 1;
        assert forall|i: int| 0 <= i < items.drop_last().len() implies nots.drop_last()[i]
            == Requires::Not(Box::new(#[trigger] items.drop_last()[i])) by {
            assert(nots.drop_last()[i] == nots[i]);
            assert(items.drop_last()[i] == items[i]);
        }
        lemma_resolves_negated(items.drop_last(), nots.drop_last(), al, d);
        assert(nots[n] == Requires::Not(Box::new(items[n])));
        assert(nots.last() == Requires::Not(Box::new(items.last())));
        assert(resolves(items.last(), al, d));
        assert(resolves(nots.last(), al, d));
    }
}

/// De Morgan's law: "not (a and b and ...)" has the verdict of
/// "(not a) or (not b) or ...".
pub proof fn law_de_morgan(
    items: Vec<Requires>,
    nots: Vec<Requires>,
    al: Seq<(String, Requires)>,
    ev: Evaluator,
)
    requires
        well_founded(Requires::And(items), al),
        nots@.len() == items@.len(),
        forall|i: int| 0 <= i < items@.len() ==> nots@[i] == Requires::Not(Box::new(items@[i])),
    ensures
        well_founded(Requires::Or(nots), al),
        evaluation(Requires::Not(Box::new(Requires::And(items))), al, ev) == evaluation(
            Requires::Or(nots),
            al,
            ev,
        ),
{
    let a = Requires::And(items);
    let d = alias_depth(a, al);
    lemma_resolves_negated(items@, nots@, al, d);
    assert(resolves(Requires::Or(nots), al, d));
    assert(resolves(Requires::Not(Box::new(a)), al, d));
    lemma_evaluation_at(Requires::Not(Box::new(a)), al, ev, d);
    lemma_evaluation_at(Requires::Or(nots), al, ev, d);
    lemma_knowns_negated(items@, nots@, al, ev, d);
    let k = eval_knowns(items@, al, ev, d);
    let na = Requires::Not(Box::new(a));
    let o = Requires::Or(nots);
    assert(eval_req(a, al, ev, d) == if k.len() == 0 {
        None::<bool>
    } else {
        Some(all_true(k))
    });
    assert(eval_req(na, al, ev, d) == if k.len() == 0 {
        None::<bool>
    } else {
        Some(!all_true(k))
    });
    assert(eval_req(o, al, ev, d) == if k.len() == 0 {
        None::<bool>
    } else {
        Some(any_true(negated(k)))
    });
    if all_true(k) {
        if any_true(negated(k)) {
            let j = choose|j: int| 0 <= j < negated(k).len() && negated(k)[j];
            assert(k[j]);
        }
    } else {
        let j = choose|j: int| 0 <= j < k.len() && !k[j];
        assert(negated(k)[j]);
    }
}

/// Whether a faction's evaluator answers `true` for a name: the faction's
/// id, its culture, or `all`.
pub open spec fn names_faction(n: Seq<char>, f: Faction) -> bool {
    n == f.id@ || n == f.culture@ || n == "all"@
}

proof fn lemma_faction_knowns(fs: Seq<String>, ev: Evaluator, f: Faction)
    requires
        is_faction_evaluator(ev, f),
    ensures
        faction_knowns(fs, ev.faction).len() == fs.len(),
        forall|i: int|
            0 <= i < fs.len() ==> faction_knowns(fs, ev.faction)[i] == names_faction(
                #[trigger] fs[i]@,
                f,
            ),
    decreases fs.len(),
{
    if fs.len() > 0 {
        lemma_faction_knowns(fs.drop_last(), ev, f);
        let c = ev.faction.unwrap();
        let key = fs.last()@;
        let m = c.map@;
        assert(m.drop_last().drop_last().drop_last() =~= Seq::<(String, bool)>::empty());
        assert(m.drop_last().last() == m[1]);
        assert(m.drop_last().drop_last().last() == m[0]);
        assert(lookup_choice(m.drop_last().drop_last().drop_last(), key) == None::<bool>);
        assert(lookup_choice(m.drop_last().drop_last(), key) == if key == f.id@ {
            Some(true)
        } else {
            None::<bool>
        });
        assert(lookup_choice(m.drop_last(), key) == if key == f.id@ || key == f.culture@ {
            Some(true)
        } else {
            None::<bool>
        });
        assert(lookup_choice(m, key) == if names_faction(key, f) {
            Some(true)
        } else {
            None::<bool>
        });
        assert(choice_of(ev.faction, key) == Some(names_faction(key, f)));
        assert forall|i: int| 0 <= i < fs.len() implies faction_knowns(fs, ev.faction)[i]
            == names_faction(#[trigger] fs[i]@, f) by {
            if i < fs.len() - 1 {
                assert(fs.drop_last()[i] == fs[i]);
            }
        }
    }
}

/// A list of factions holds for a faction's evaluator exactly where the list
/// is empty or names the faction, its culture or `all`.
pub proof fn law_faction_requirement(
    fs: Vec<String>,
    f: Faction,
    al: Seq<(String, Requires)>,
    ev: Evaluator,
)
    requires
        is_faction_evaluator(ev, f),
    ensures
        well_founded(Requires::Factions(fs), al),
        evaluation(Requires::Factions(fs), al, ev) == (fs@.len() == 0 || exists|i: int|
            0 <= i < fs@.len() && names_faction(#[trigger] fs@[i]@, f)),
{
    let r = Requires::Factions(fs);
    assert(resolves(r, al, 0));
    lemma_evaluation_at(r, al, ev, 0);
    lemma_faction_knowns(fs@, ev, f);
    let k = faction_knowns(fs@, ev.faction);
    if exists|i: int| 0 <= i < fs@.len() && names_faction(#[trigger] fs@[i]@, f) {
        let i = choose|i: int| 0 <= i < fs@.len() && names_faction(#[trigger] fs@[i]@, f);
        assert(k[i]);
    }
    if any_true(k) {
        let i = choose|i: int| 0 <= i < k.len() && k[i];
        assert(names_faction(fs@[i]@, f));
    }
}

/// The hidden resources of a region's own kind (not factionwide) hold for
/// its evaluator exactly where the region has them; factionwide ones stay
/// undecided, so they hold.
pub proof fn law_region_hidden_resource(
    id: String,
    factionwide: bool,
    reg: Region,
    al: Seq<(String, Requires)>,
    ev: Evaluator,
)
    requires
        is_region_evaluator(ev, reg),
    ensures
        well_founded(Requires::HiddenResource { id, factionwide }, al),
        evaluation(Requires::HiddenResource { id, factionwide }, al, ev) == (factionwide
            || exists|i: int|
            0 <= i < reg.hidden_resources@.len() && #[trigger] reg.hidden_resources@[i]@ == id@),
{
    let r = Requires::HiddenResource { id, factionwide };
    assert(resolves(r, al, 0));
    lemma_evaluation_at(r, al, ev, 0);
    let c = ev.hidden_resource.unwrap();
    lemma_lookup_all_true(c.map@, id@, reg.hidden_resources@);
}

proof fn lemma_lookup_all_true(m: Seq<(String, bool)>, key: Seq<char>, names: Seq<String>)
    requires
        m.len() == names.len(),
        forall|i: int| 0 <= i < m.len() ==> (#[trigger] m[i]).0@ == names[i]@ && m[i].1,
    ensures
        lookup_choice(m, key) == if exists|i: int| 0 <= i < names.len() && #[trigger] names[i]@ == key {
            Some(true)
        } else {
            None::<bool>
        },
    decreases m.len(),
{
    if m.len() > 0 {
        lemma_lookup_all_true(m.drop_last(), key, names.drop_last());
        assert(m.last() == m[m.len() - 1]);
        if exists|i: int| 0 <= i < names.len() && #[trigger] names[i]@ == key {
            let i = choose|i: int| 0 <= i < names.len() && #[trigger] names[i]@ == key;
            if i < names.len() - 1 {
                assert(names.drop_last()[i] == names[i]);
            }
        }
        if exists|i: int| 0 <= i < names.drop_last().len() && #[trigger] names.drop_last()[i]@ == key {
            let i = choose|i: int| 0 <= i < names.drop_last().len() && #[trigger] names.drop_last()[i]@ == key;
            assert(names[i]@ == key);
        }
    }
}

/// Whether two sets of choices give the same answers: the same default,
/// and maps whose entries have the same names and answers.
pub open spec fn same_choices(a: Option<EvaluatorChoices>, b: Option<EvaluatorChoices>) -> bool {
    match (a, b) {
        (None, None) => true,
        (Some(x), Some(y)) => x.default == y.default && x.map@.len() == y.map@.len() && forall|i: int|
            0 <= i < x.map@.len() ==> (#[trigger] x.map@[i]).0@ == y.map@[i].0@ && x.map@[i].1
                == y.map@[i].1,
        _ => false,
    }
}

/// Whether two evaluators give the same answers.
pub open spec fn same_answers(e1: Evaluator, e2: Evaluator) -> bool {
    &&& e1.default == e2.default
    &&& same_choices(e1.faction, e2.faction)
    &&& same_choices(e1.resource, e2.resource)
    &&& same_choices(e1.hidden_resource, e2.hidden_resource)
    &&& same_choices(e1.major_event, e2.major_event)
}

proof fn lemma_lookup_same(m1: Seq<(String, bool)>, m2: Seq<(String, bool)>, key: Seq<char>)
    requires
        m1.len() == m2.len(),
        forall|i: int| 0 <= i < m1.len() ==> (#[trigger] m1[i]).0@ == m2[i].0@ && m1[i].1 == m2[i].1,
    ensures
        lookup_choice(m1, key) == lookup_choice(m2, key),
    decreases m1.len(),
{
    if m1.len() > 0 {
        assert(m1.last() == m1[m1.len() - 1]);
        assert(m2.last() == m2[m2.len() - 1]);
        assert forall|i: int| 0 <= i < m1.drop_last().len() implies (
        #[trigger] m1.drop_last()[i]).0@ == m2.drop_last()[i].0@ && m1.drop_last()[i].1
            == m2.drop_last()[i].1 by {
            assert(m1.drop_last()[i] == m1[i]);
            assert(m2.drop_last()[i] == m2[i]);
        }
        lemma_lookup_same(m1.drop_last(), m2.drop_last(), key);
    }
}

proof fn lemma_choice_same(a: Option<EvaluatorChoices>, b: Option<EvaluatorChoices>, key: Seq<char>)
    requires
        same_choices(a, b),
    ensures
        choice_of(a, key) == choice_of(b, key),
{
    if a is Some {
        lemma_lookup_same(a.unwrap().map@, b.unwrap().map@, key);
    }
}

proof fn lemma_faction_knowns_same(
    fs: Seq<String>,
    a: Option<EvaluatorChoices>,
    b: Option<EvaluatorChoices>,
)
    requires
        same_choices(a, b),
    ensures
        faction_knowns(fs, a) == faction_knowns(fs, b),
    decreases fs.len(),
{
    if fs.len() > 0 {
        lemma_faction_knowns_same(fs.drop_last(), a, b);
        lemma_choice_same(a, b, fs.last()@);
    }
}

/// Evaluators that give the same answers decide every requirement alike.
pub proof fn lemma_eval_same(
    r: Requires,
    al: Seq<(String, Requires)>,
    e1: Evaluator,
    e2: Evaluator,
    d: nat,
)
    requires
        same_answers(e1, e2),
    ensures
        eval_req(r, al, e1, d) == eval_req(r, al, e2, d),
    decreases d, r,
{
    match r {
        Requires::Resource { id, factionwide } => {
            lemma_choice_same(e1.resource, e2.resource, id@);
        },
        Requires::HiddenResource { id, factionwide } => {
            lemma_choice_same(e1.hidden_resource, e2.hidden_resource, id@);
        },
        Requires::MajorEvent(e) => {
            lemma_choice_same(e1.major_event, e2.major_event, e@);
        },
        Requires::Factions(fs) => {
            lemma_faction_knowns_same(fs@, e1.faction, e2.faction);
        },
        Requires::Alias(id) => {
            if d > 0 {
                match lookup_alias(al, id@) {
                    None => {},
                    Some(b) => {
                        lemma_eval_same(b, al, e1, e2, (d - 1) as nat);
                    },
                }
            }
        },
        Requires::Not(x) => {
            lemma_eval_same(*x, al, e1, e2, d);
        },
        Requires::And(items) => {
            lemma_eval_knowns_same(items@, al, e1, e2, d);
        },
        Requires::Or(items) => {
            lemma_eval_knowns_same(items@, al, e1, e2, d);
        },
        _ => {},
    }
}

pub proof fn lemma_eval_knowns_same(
    rs: Seq<Requires>,
    al: Seq<(String, Requires)>,
    e1: Evaluator,
    e2: Evaluator,
    d: nat,
)
    requires
        same_answers(e1, e2),
    ensures
        eval_knowns(rs, al, e1, d) == eval_knowns(rs, al, e2, d),
    decreases d, rs,
{
    if rs.len() > 0 {
        lemma_eval_knowns_same(rs.drop_last(), al, e1, e2, d);
        lemma_eval_same(rs.last(), al, e1, e2, d);
    }
}

/// All evaluators of a faction give the same verdicts.
pub proof fn lemma_faction_evaluators_agree(
    r: Requires,
    al: Seq<(String, Requires)>,
    e1: Evaluator,
    e2: Evaluator,
    f: Faction,
)
    requires
        is_faction_evaluator(e1, f),
        is_faction_evaluator(e2, f),
    ensures
        evaluation(r, al, e1) == evaluation(r, al, e2),
{
    let c1 = e1.faction.unwrap();
    let c2 = e2.faction.unwrap();
    assert forall|i: int| 0 <= i < c1.map@.len() implies (#[trigger] c1.map@[i]).0@ == c2.map@[i].0@
        && c1.map@[i].1 == c2.map@[i].1 by {
        assert(i == 0 || i == 1 || i == 2);
    }
    lemma_eval_same(r, al, e1, e2, alias_depth(r, al));
}

/// All evaluators of a region give the same verdicts.
pub proof fn lemma_region_evaluators_agree(
    r: Requires,
    al: Seq<(String, Requires)>,
    e1: Evaluator,
    e2: Evaluator,
    reg: Region,
)
    requires
        is_region_evaluator(e1, reg),
        is_region_evaluator(e2, reg),
    ensures
        evaluation(r, al, e1) == evaluation(r, al, e2),
{
    let c1 = e1.hidden_resource.unwrap();
    let c2 = e2.hidden_resource.unwrap();
    assert forall|i: int| 0 <= i < c1.map@.len() implies (#[trigger] c1.map@[i]).0@ == c2.map@[i].0@
        && c1.map@[i].1 == c2.map@[i].1 by {
        assert(c1.map@[i].0@ == reg.hidden_resources@[i]@);
        assert(c2.map@[i].0@ == reg.hidden_resources@[i]@);
    }
    lemma_eval_same(r, al, e1, e2, alias_depth(r, al));
}

impl EvaluatorChoices {
    /// The answer for `choice`: the map's, else the default.
    fn get(&self, choice: &str) -> (r: Option<bool>)
        ensures
            r == choice_of(Some(*self), choice@),
    {
        let key = chars_of(choice);
        let mut i = self.map.len();
        assert(self.map@.take(i as int) =~= self.map@);
        while i > 0
            invariant
                0 <= i <= self.map.len(),
                key@ == choice@,
                lookup_choice(self.map@, choice@) == lookup_choice(self.map@.take(i as int), choice@),
            decreases i,
        {
            assert(self.map@.take(i as int).drop_last() =~= self.map@.take(i - 1));
            let k = chars_of(self.map[i - 1].0.as_str());
            if eq_chars(&k, &key) {
                return Some(self.map[i - 1].1);
            }
            i -= 1;
        }
        assert(self.map@.take(0) =~= Seq::<(String, bool)>::empty());
        self.default
    }
}

fn choice(c: &Option<EvaluatorChoices>, key: &str) -> (r: Option<bool>)
    ensures
        r == choice_of(*c, key@),
{
    match c {
        None => None,
        Some(ch) => ch.get(key),
    }
}

pub(crate) fn find_alias<'a>(al: &'a Vec<(String, Requires)>, id: &String) -> (r: Option<&'a Requires>)
    ensures
        match r {
            Some(x) => lookup_alias(al@, id@) == Some(*x),
            None => lookup_alias(al@, id@) is None,
        },
{
    let mut i = al.len();
    assert(al@.take(i as int) =~= al@);
    while i > 0
        invariant
            0 <= i <= al.len(),
            lookup_alias(al@, id@) == lookup_alias(al@.take(i as int), id@),
        decreases i,
    {
        assert(al@.take(i as int).drop_last() =~= al@.take(i - 1));
        if al[i - 1].0 == *id {
            return Some(&al[i - 1].1);
        }
        i -= 1;
    }
    assert(al@.take(0) =~= Seq::<(String, Requires)>::empty());
    None
}

fn knowns_of(
    items: &Vec<Requires>,
    al: &Vec<(String, Requires)>,
    ev: &Evaluator,
    Ghost(d): Ghost<nat>,
) -> (r: (usize, bool, bool))
    requires
        resolves_all(items@, al@, d),
    ensures
        r.0 == eval_knowns(items@, al@, *ev, d).len(),
        r.1 == any_true(eval_knowns(items@, al@, *ev, d)),
        r.2 == all_true(eval_knowns(items@, al@, *ev, d)),
    decreases d, items@, 0nat,
{
    let mut n: usize = 0;
    let mut any = false;
    let mut all = true;
    let mut i: usize = 0;
    assert(items@.take(0) =~= Seq::<Requires>::empty());
    while i < items.len()
        invariant
            0 <= i <= items.len(),
            resolves_all(items@, al@, d),
            resolves_all(items@.take(i as int), al@, d),
            n == eval_knowns(items@.take(i as int), al@, *ev, d).len(),
            n <= i,
            any == any_true(eval_knowns(items@.take(i as int), al@, *ev, d)),
            all == all_true(eval_knowns(items@.take(i as int), al@, *ev, d)),
        decreases items.len() - i,
    {
        proof {
            lemma_resolves_prefix(items@, al@, d, (i + 1) as int);
        }
        assert(items@.take(i + 1).drop_last() =~= items@.take(i as int));
        assert(items@.take(i + 1).last() == items@[i as int]);
        assert(decreases_to!(items@ => items@[i as int]));
        let v = do_evaluate(&items[i], al, ev, Ghost(d));
        let ghost p = eval_knowns(items@.take(i as int), al@, *ev, d);
        match v {
            Some(b) => {
                assert(eval_knowns(items@.take(i + 1), al@, *ev, d) == p.push(b));
                assert forall|j: int| 0 <= j < p.len() implies p.push(b)[j] == p[j] by {}
                if b {
                    assert(p.push(b)[p.len() as int]);
                }
                proof {
                    if any_true(p) {
                        let j = choose|j: int| 0 <= j < p.len() && p[j];
                        assert(p.push(b)[j]);
                    }
                    if any_true(p.push(b)) {
                        let j = choose|j: int| 0 <= j < p.push(b).len() && p.push(b)[j];
                        if j < p.len() {
                            assert(p[j]);
                        }
                    }
                    if all_true(p.push(b)) {
                        assert(p.push(b)[p.len() as int]);
                    }
                }
                n = n + 1;
                any = any || b;
                all = all && b;
            },
            None => {},
        }
        i += 1;
    }
    assert(items@.take(items.len() as int) =~= items@);
    (n, any, all)
}

proof fn lemma_resolves_prefix(rs: Seq<Requires>, al: Seq<(String, Requires)>, d: nat, k: int)
    requires
        resolves_all(rs, al, d),
        0 <= k <= rs.len(),
    ensures
        resolves_all(rs.take(k), al, d),
        k > 0 ==> resolves(rs[k - 1], al, d),
    decreases rs.len() - k,
{
    if k < rs.len() {
        lemma_resolves_prefix(rs, al, d, k + 1);
        assert(rs.take(k + 1).drop_last() =~= rs.take(k));
        assert(rs.take(k + 1).last() == rs[k]);
    } else {
        assert(rs.take(k) =~= rs);
    }
    if k > 0 {
        assert(rs.take(k).last() == rs[k - 1]);
    }
}

/// Whether every alias that a requirement reaches is defined, with chains
/// of aliases at most `d` long.
pub fn resolves_within(req: &Requires, aliases: &Vec<(String, Requires)>, d: usize) -> (b: bool)
    ensures
        b == resolves(*req, aliases@, d as nat),
    decreases d, *req, 1nat,
{
    match req {
        Requires::Alias(id) => {
            if d == 0 {
                return false;
            }
            match find_alias(aliases, id) {
                None => false,
                Some(b) => resolves_within(b, aliases, d - 1),
            }
        },
        Requires::Not(x) => resolves_within(x, aliases, d),
        Requires::And(items) => all_resolve_within(items, aliases, d),
        Requires::Or(items) => all_resolve_within(items, aliases, d),
        _ => true,
    }
}

fn all_resolve_within(items: &Vec<Requires>, aliases: &Vec<(String, Requires)>, d: usize) -> (b: bool)
    ensures
        b == resolves_all(items@, aliases@, d as nat),
    decreases d, items@, 0nat,
{
    let mut i: usize = 0;
    assert(items@.take(0) =~= Seq::<Requires>::empty());
    while i < items.len()
        invariant
            0 <= i <= items.len(),
            resolves_all(items@.take(i as int), aliases@, d as nat),
        decreases items.len() - i,
    {
        assert(items@.take(i + 1).drop_last() =~= items@.take(i as int));
        assert(items@.take(i + 1).last() == items@[i as int]);
        assert(decreases_to!(items@ => items@[i as int]));
        if !resolves_within(&items[i], aliases, d) {
            proof {
                if resolves_all(items@, aliases@, d as nat) {
                    lemma_resolves_prefix(items@, aliases@, d as nat, i + 1);
                }
            }
            return false;
        }
        i += 1;
    }
    assert(items@.take(items.len() as int) =~= items@);
    true
}

fn factions_known(fs: &Vec<String>, c: &Option<EvaluatorChoices>) -> (r: (usize, bool))
    ensures
        r.0 == faction_knowns(fs@, *c).len(),
        r.1 == any_true(faction_knowns(fs@, *c)),
{
    let mut n: usize = 0;
    let mut any = false;
    let mut i: usize = 0;
    assert(fs@.take(0) =~= Seq::<String>::empty());
    while i < fs.len()
        invariant
            0 <= i <= fs.len(),
            n == faction_knowns(fs@.take(i as int), *c).len(),
            n <= i,
            any == any_true(faction_knowns(fs@.take(i as int), *c)),
        decreases fs.len() - i,
    {
        assert(fs@.take(i + 1).drop_last() =~= fs@.take(i as int));
        assert(fs@.take(i + 1).last() == fs@[i as int]);
        let v = choice(c, fs[i].as_str());
        let ghost p = faction_knowns(fs@.take(i as int), *c);
        match v {
            Some(b) => {
                proof {
                    if any_true(p) {
                        let j = choose|j: int| 0 <= j < p.len() && p[j];
                        assert(p.push(b)[j]);
                    }
                    if any_true(p.push(b)) {
                        let j = choose|j: int| 0 <= j < p.push(b).len() && p.push(b)[j];
                        if j < p.len() {
                            assert(p[j]);
                        }
                    }
                    if b {
                        assert(p.push(b)[p.len() as int]);
                    }
                }
                n = n + 1;
                any = any || b;
            },
            None => {},
        }
        i += 1;
    }
    assert(fs@.take(fs.len() as int) =~= fs@);
    (n, any)
}

fn do_evaluate(
    req: &Requires,
    aliases: &Vec<(String, Requires)>,
    eval: &Evaluator,
    Ghost(d): Ghost<nat>,
) -> (r: Option<bool>)
    requires
        resolves(*req, aliases@, d),
    ensures
        r == eval_req(*req, aliases@, *eval, d),
    decreases d, *req, 1nat,
{
    match req {
        Requires::False => Some(false),
        Requires::Resource { id, factionwide } => {
            if !*factionwide {
                choice(&eval.resource, id.as_str())
            } else {
                eval.default
            }
        },
        Requires::HiddenResource { id, factionwide } => {
            if !*factionwide {
                choice(&eval.hidden_resource, id.as_str())
            } else {
                eval.default
            }
        },
        Requires::MajorEvent(e) => choice(&eval.major_event, e.as_str()),
        Requires::Factions(fs) => {
            let (n, any) = factions_known(fs, &eval.faction);
            if n == 0 {
                None
            } else {
                Some(any)
            }
        },
        Requires::IsPlayer => Some(true),
        Requires::Alias(id) => {
            match find_alias(aliases, id) {
                None => None,
                Some(b) => do_evaluate(b, aliases, eval, Ghost((d - 1) as nat)),
            }
        },
        Requires::Not(x) => {
            match do_evaluate(x, aliases, eval, Ghost(d)) {
                Some(b) => Some(!b),
                None => None,
            }
        },
        Requires::And(items) => {
            let (n, _any, all) = knowns_of(items, aliases, eval, Ghost(d));
            if n == 0 {
                None
            } else {
                Some(all)
            }
        },
        Requires::Or(items) => {
            let (n, any, _all) = knowns_of(items, aliases, eval, Ghost(d));
            if n == 0 {
                None
            } else {
                Some(any)
            }
        },
        _ => eval.default,
    }
}

/// Whether a requirement holds by what the evaluator knows: its answer, or
/// `true` where the answer is undecided.
pub fn evaluate(req: &Requires, aliases: &Vec<(String, Requires)>, eval: &Evaluator) -> (b: bool)
    requires
        well_founded(*req, aliases@),
    ensures
        b == evaluation(*req, aliases@, *eval),
{
    let ghost d = alias_depth(*req, aliases@);
    match do_evaluate(req, aliases, eval, Ghost(d)) {
        Some(b) => b,
        None => true,
    }
}

/// Whether `e` is the evaluator of a faction: it answers `true` for the
/// faction's id, its culture and `all`, `false` for every other faction,
/// and knows nothing else.
pub open spec fn is_faction_evaluator(e: Evaluator, f: Faction) -> bool {
    &&& e.default is None
    &&& e.resource is None
    &&& e.hidden_resource is None
    &&& e.major_event is None
    &&& e.faction matches Some(c) && {
        &&& c.default == Some(false)
        &&& c.map@.len() == 3
        &&& c.map@[0].0@ == f.id@ && c.map@[0].1
        &&& c.map@[1].0@ == f.culture@ && c.map@[1].1
        &&& c.map@[2].0@ == "all"@ && c.map@[2].1
    }
}

/// Whether `e` is the evaluator of a region: it answers `true` for the
/// region's hidden resources, `false` for every other hidden resource, and
/// knows nothing else.
pub open spec fn is_region_evaluator(e: Evaluator, r: Region) -> bool {
    &&& e.default is None
    &&& e.resource is None
    &&& e.faction is None
    &&& e.major_event is None
    &&& e.hidden_resource matches Some(c) && {
        &&& c.default == Some(false)
        &&& c.map@.len() == r.hidden_resources@.len()
        &&& forall|i: int|
            0 <= i < c.map@.len() ==> (#[trigger] c.map@[i]).0@ == r.hidden_resources@[i]@
                && c.map@[i].1
    }
}

/// Whether the choices answer as a faction's evaluator does: `true` for
/// the faction's id, its culture and `all`, `false` for any other faction.
pub open spec fn faction_choices(c: Option<EvaluatorChoices>, f: Faction) -> bool {
    c matches Some(c) && {
        &&& c.default == Some(false)
        &&& c.map@.len() == 3
        &&& c.map@[0].0@ == f.id@ && c.map@[0].1
        &&& c.map@[1].0@ == f.culture@ && c.map@[1].1
        &&& c.map@[2].0@ == "all"@ && c.map@[2].1
    }
}

/// Whether the choices answer as a region's evaluator does: `true` for the
/// region's hidden resources, `false` for any other.
pub open spec fn region_choices(c: Option<EvaluatorChoices>, r: Region) -> bool {
    c matches Some(c) && {
        &&& c.default == Some(false)
        &&& c.map@.len() == r.hidden_resources@.len()
        &&& forall|i: int|
            0 <= i < c.map@.len() ==> (#[trigger] c.map@[i]).0@ == r.hidden_resources@[i]@
                && c.map@[i].1
    }
}

/// Whether `e` is the evaluator of a region as the faction `f` sees it: it
/// answers for the region's hidden resources as a region's evaluator does,
/// for factions as `f`'s evaluator does (where `f` is given), and knows
/// nothing else.
pub open spec fn is_region_evaluator_as(e: Evaluator, r: Region, f: Option<Faction>) -> bool {
    &&& e.default is None
    &&& e.resource is None
    &&& e.major_event is None
    &&& region_choices(e.hidden_resource, r)
    &&& match f {
        None => e.faction is None,
        Some(f) => faction_choices(e.faction, f),
    }
}

/// What a requirement comes to for a faction.
pub open spec fn faction_verdict(r: Requires, al: Seq<(String, Requires)>, f: Faction) -> bool {
    evaluation(r, al, choose|e: Evaluator| is_faction_evaluator(e, f))
}

/// What a requirement comes to in a region, as the faction `f` (if any)
/// sees it.
pub open spec fn region_verdict(
    r: Requires,
    al: Seq<(String, Requires)>,
    reg: Region,
    f: Option<Faction>,
) -> bool {
    evaluation(r, al, choose|e: Evaluator| is_region_evaluator_as(e, reg, f))
}

/// All evaluators of a region as one faction sees it give the same verdicts.
pub proof fn lemma_region_as_evaluators_agree(
    r: Requires,
    al: Seq<(String, Requires)>,
    e1: Evaluator,
    e2: Evaluator,
    reg: Region,
    f: Option<Faction>,
)
    requires
        is_region_evaluator_as(e1, reg, f),
        is_region_evaluator_as(e2, reg, f),
    ensures
        evaluation(r, al, e1) == evaluation(r, al, e2),
{
    let c1 = e1.hidden_resource.unwrap();
    let c2 = e2.hidden_resource.unwrap();
    assert forall|i: int| 0 <= i < c1.map@.len() implies (#[trigger] c1.map@[i]).0@ == c2.map@[i].0@
        && c1.map@[i].1 == c2.map@[i].1 by {
        assert(c1.map@[i].0@ == reg.hidden_resources@[i]@);
        assert(c2.map@[i].0@ == reg.hidden_resources@[i]@);
    }
    if f is Some {
        let d1 = e1.faction.unwrap();
        let d2 = e2.faction.unwrap();
        assert forall|i: int| 0 <= i < d1.map@.len() implies (#[trigger] d1.map@[i]).0@
            == d2.map@[i].0@ && d1.map@[i].1 == d2.map@[i].1 by {
            assert(i == 0 || i == 1 || i == 2);
        }
    }
    lemma_eval_same(r, al, e1, e2, alias_depth(r, al));
}

fn copy_string(s: &String) -> (r: String)
    ensures
        r@ == s@,
{
    s.clone()
}

impl Evaluator {
    /// The evaluator of a faction.
    pub fn faction(faction: &Faction) -> (e: Self)
        ensures
            is_faction_evaluator(e, *faction),
    {
        let mut map: Vec<(String, bool)> = Vec::new();
        map.push((copy_string(&faction.id), true));
        map.push((copy_string(&faction.culture), true));
        let all = chars_of("all");
        map.push((string_of(&all), true));
        Evaluator {
            default: None,
            faction: Some(EvaluatorChoices { map, default: Some(false) }),
            resource: None,
            hidden_resource: None,
            major_event: None,
        }
    }

    /// The evaluator of a region as a faction, if one is given, sees it.
    pub fn region_as(region: &Region, faction: Option<&Faction>) -> (e: Self)
        ensures
            is_region_evaluator_as(
                e,
                *region,
                match faction {
                    Some(f) => Some(*f),
                    None => None,
                },
            ),
    {
        let r = Evaluator::region(region);
        let fc = match faction {
            Some(f) => Evaluator::faction(f).faction,
            None => None,
        };
        Evaluator {
            default: None,
            faction: fc,
            resource: None,
            hidden_resource: r.hidden_resource,
            major_event: None,
        }
    }

    /// The evaluator of a region.
    pub fn region(region: &Region) -> (e: Self)
        ensures
            is_region_evaluator(e, *region),
    {
        let mut map: Vec<(String, bool)> = Vec::new();
        let mut i: usize = 0;
        while i < region.hidden_resources.len()
            invariant
                0 <= i <= region.hidden_resources.len(),
                map@.len() == i,
                forall|j: int|
                    0 <= j < i ==> (#[trigger] map@[j]).0@ == region.hidden_resources@[j]@
                        && map@[j].1,
            decreases region.hidden_resources.len() - i,
        {
            map.push((copy_string(&region.hidden_resources[i]), true));
            i += 1;
        }
        Evaluator {
            default: None,
            faction: None,
            resource: None,
            hidden_resource: Some(EvaluatorChoices { map, default: Some(false) }),
            major_event: None,
        }
    }
}

} // verus!
