//! `descr_cultures.txt`: the default culture.
use vstd::prelude::*;

use crate::chars::{keyword_value, keyword_value_of, lines, map_before, map_trim, string_of, starts_with_str, trimmed_lines_of, views};
use crate::parse::manifest::ParserMode;
use crate::parse::ParseError;
use crate::records::first_with_prefix;

verus! {

/// The culture named on the first line that begins with `culture`.
pub open spec fn default_culture(s: Seq<char>) -> Result<Seq<char>, ParseError> {
    match first_with_prefix(map_trim(map_before(lines(s), ';')), "culture"@) {
        None => Err(ParseError::Missing("default culture")),
        Some(l) => match keyword_value(l).1 {
            None => Err(ParseError::Missing("culture")),
            Some(v) => Ok(v),
        },
    }
}

/// Reads the default culture: the value of the first line, comments cut and
/// trimmed, that begins with `culture`.
pub fn parse(data: &str, _mode: ParserMode) -> (res: Result<String, ParseError>)
    ensures
        match (res, default_culture(data@)) {
            (Ok(v), Ok(w)) => v@ == w,
            (Err(e), Err(f)) => e == f,
            _ => false,
        },
{
    let ls = trimmed_lines_of(data);
    let mut i: usize = 0;
    let ghost all = views(ls@);
    assert(all.skip(0) =~= all);
    while i < ls.len()
        invariant
            0 <= i <= ls.len(),
            all == views(ls@),
            all == map_trim(map_before(lines(data@), ';')),
            first_with_prefix(all, "culture"@) == first_with_prefix(all.skip(i as int), "culture"@),
        decreases ls.len() - i,
    {
        assert(all.skip(i as int)[0] == ls@[i as int]@);
        if starts_with_str(&ls[i], "culture") {
            assert(first_with_prefix(all.skip(i as int), "culture"@) == Some(ls@[i as int]@));
            let kv = keyword_value_of(&ls[i]);
            let value = kv.1;
            return match value {
                None => Err(ParseError::Missing("culture")),
                Some(v) => Ok(string_of(&v)),
            };
        }
        assert(all.skip(i as int).drop_first() =~= all.skip(i + 1));
        i += 1;
    }
    assert(all.skip(i as int) =~= Seq::<Seq<char>>::empty());
    Err(ParseError::Missing("default culture"))
}

} // verus!
