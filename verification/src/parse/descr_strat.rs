//! `descr_strat.txt`: the order of the factions of the campaign.
use vstd::prelude::*;

use crate::chars::{
    cut_lines_of, drop_empty, drop_empty_lines, lines, map_before, map_trim, starts_with, starts_with_str,
    string_of, trim, trim_chars, views,
};
use crate::parse::manifest::ParserMode;
use crate::parse::ParseError;

verus! {

/// Whether a line opens one of the faction lists.
pub open spec fn opens_list(l: Seq<char>) -> bool {
    starts_with(l, "playable"@) || starts_with(l, "unlockable"@) || starts_with(l, "nonplayable"@)
}

/// The trimmed lines inside the faction lists, which run from a
/// `playable`, `unlockable` or `nonplayable` line to the next `end` line;
/// with whether a list is still open after the last line.
pub open spec fn listed(ls: Seq<Seq<char>>) -> (Seq<Seq<char>>, bool)
    decreases ls.len(),
{
    if ls.len() == 0 {
        (seq![], false)
    } else {
        let (acc, open) = listed(ls.drop_last());
        let l = ls.last();
        if opens_list(l) {
            (acc, true)
        } else if starts_with(l, "end"@) {
            (acc, false)
        } else if open {
            (acc.push(trim(l)), open)
        } else {
            (acc, open)
        }
    }
}

/// Whether a line begins none of the faction lists and ends none.
pub open spec fn plain_list_line(l: Seq<char>) -> bool {
    !starts_with(l, "playable"@) && !starts_with(l, "unlockable"@) && !starts_with(l, "nonplayable"@)
        && !starts_with(l, "end"@)
}

/// Lines after an opening line of a list are all taken, trimmed, and the
/// list stays open.
proof fn lemma_list_body(ls: Seq<Seq<char>>, opener: Seq<char>, body: Seq<Seq<char>>)
    requires
        starts_with(opener, "playable"@) || starts_with(opener, "unlockable"@) || starts_with(
            opener,
            "nonplayable"@,
        ),
        forall|i: int| 0 <= i < body.len() ==> plain_list_line(#[trigger] body[i]),
    ensures
        listed(ls.push(opener) + body) == (listed(ls).0 + map_trim(body), true),
    decreases body.len(),
{
    if body.len() == 0 {
        assert(ls.push(opener) + body =~= ls.push(opener));
        assert(ls.push(opener).drop_last() =~= ls);
        assert(listed(ls).0 + map_trim(body) =~= listed(ls).0);
    } else {
        let b = body.drop_last();
        assert forall|i: int| 0 <= i < b.len() implies plain_list_line(#[trigger] b[i]) by {
            assert(b[i] == body[i]);
        }
        lemma_list_body(ls, opener, b);
        let all = ls.push(opener) + body;
        assert(all.drop_last() =~= ls.push(opener) + b);
        assert(all.last() == body.last());
        assert(plain_list_line(body[body.len() - 1]));
        assert(listed(ls).0 + map_trim(b) + seq![trim(body.last())] =~= listed(ls).0 + map_trim(body));
        assert((listed(ls).0 + map_trim(b)).push(trim(body.last())) =~= listed(ls).0 + map_trim(body));
    }
}

/// A `playable`, `unlockable` or `nonplayable` list, up to its `end` line,
/// adds each of its lines, trimmed and in order, to the factions before it,
/// and closes: whatever list a faction is in, it is listed.
pub proof fn law_faction_lists(
    ls: Seq<Seq<char>>,
    opener: Seq<char>,
    body: Seq<Seq<char>>,
    closer: Seq<char>,
)
    requires
        starts_with(opener, "playable"@) || starts_with(opener, "unlockable"@) || starts_with(
            opener,
            "nonplayable"@,
        ),
        forall|i: int| 0 <= i < body.len() ==> plain_list_line(#[trigger] body[i]),
        starts_with(closer, "end"@),
        !starts_with(closer, "playable"@) && !starts_with(closer, "unlockable"@) && !starts_with(
            closer,
            "nonplayable"@,
        ),
    ensures
        listed(ls.push(opener) + body.push(closer)) == (listed(ls).0 + map_trim(body), false),
        (listed(ls.push(opener) + body.push(closer)).0).len() == listed(ls).0.len() + body.len(),
{
    lemma_list_body(ls, opener, body);
    let all = ls.push(opener) + body.push(closer);
    assert(all.drop_last() =~= ls.push(opener) + body);
    assert(all.last() == closer);
}

/// The factions of a `descr_strat.txt` text, each with its position in the
/// lists (its order in the campaign), in file order.
pub open spec fn strat_entries(s: Seq<char>) -> Seq<(Seq<char>, usize)> {
    let names = listed(drop_empty(map_before(lines(s), ';'))).0;
    Seq::new(names.len(), |i: int| (names[i], i as usize))
}

/// Reads the faction order of a `descr_strat.txt` text: comments cut, empty
/// lines dropped, and each line inside a faction list numbered from 0.
pub fn parse(data: &str, _mode: ParserMode) -> (res: Result<Vec<(String, usize)>, ParseError>)
    ensures
        res matches Ok(v) && v.deep_view() == strat_entries(data@),
{
    let cut = cut_lines_of(data);
    let ls = drop_empty_lines(&cut);
    let ghost all = views(ls@);
    let mut out: Vec<(String, usize)> = Vec::new();
    let mut open = false;
    let mut i: usize = 0;
    assert(all.take(0) =~= Seq::<Seq<char>>::empty());
    while i < ls.len()
        invariant
            0 <= i <= ls.len(),
            all == views(ls@),
            all == drop_empty(map_before(lines(data@), ';')),
            listed(all.take(i as int)).1 == open,
            out.len() == listed(all.take(i as int)).0.len(),
            forall|k: int|
                0 <= k < out.len() ==> (#[trigger] out@[k]).0@ == listed(all.take(i as int)).0[k]
                    && out@[k].1 == k,
        decreases ls.len() - i,
    {
        assert(all.take(i + 1).drop_last() =~= all.take(i as int));
        assert(all.take(i + 1).last() == ls@[i as int]@);
        let l = &ls[i];
        if starts_with_str(l, "playable") || starts_with_str(l, "unlockable") || starts_with_str(
            l,
            "nonplayable",
        ) {
            open = true;
        } else if starts_with_str(l, "end") {
            open = false;
        } else if open {
            let t = trim_chars(l);
            let n = out.len();
            out.push((string_of(&t), n));
        }
        i += 1;
    }
    assert(all.take(ls.len() as int) =~= all);
    assert(out.deep_view() =~= strat_entries(data@));
    Ok(out)
}

} // verus!
