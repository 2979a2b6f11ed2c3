//! `descr_sm_factions.txt` of the remaster: a JSON5-like list of faction
//! objects, turned into a JSON5 document, and the factions taken from it.
use vstd::prelude::*;

use crate::chars::{clean_lines, clean_lines_of, sep_pos, lemma_sep_pos, lemma_sep_pos_bound, views, string_of};
use crate::parse::descr_sm_factions::{Faction, FactionView};
use crate::parse::ParseError;
use crate::records::opt_string_view;

verus! {

/// The lines joined with `'\n'` between them.
pub open spec fn join_lines(ls: Seq<Seq<char>>) -> Seq<char>
    decreases ls.len(),
{
    if ls.len() == 0 {
        seq![]
    } else if ls.len() == 1 {
        ls[0]
    } else {
        join_lines(ls.drop_last()) + seq!['\n'] + ls.last()
    }
}

/// Index of the last `c` in `s`, if any.
pub open spec fn last_pos(s: Seq<char>, c: char) -> Option<int>
    decreases s.len(),
{
    if s.len() == 0 {
        None
    } else if s.last() == c {
        Some(s.len() - 1)
    } else {
        last_pos(s.drop_last(), c)
    }
}

/// The JSON5 document that the faction list becomes: the meaningful lines
/// joined, the first `[` made `{` and the last `]` made `}`, all of it
/// wrapped in braces.
pub open spec fn json5_document(s: Seq<char>) -> Result<Seq<char>, ParseError> {
    let t = join_lines(clean_lines(s));
    let o = sep_pos(t, seq!['['], false);
    if o >= t.len() {
        Err(ParseError::Missing("["))
    } else {
        match last_pos(t, ']') {
            None => Err(ParseError::Missing("]")),
            Some(c) => Ok(seq!['{'] + t.update(o as int, '{').update(c, '}') + seq!['}']),
        }
    }
}

/// What the JSON5 document holds for one faction: its key, and the string
/// values of `string`, `culture`, `logos."loading screen icon"` and
/// `logos."logo index"` where they are strings.
pub struct ProtoFaction {
    pub id: String,
    pub string: Option<String>,
    pub culture: Option<String>,
    pub loading_screen_icon: Option<String>,
    pub logo_index: Option<String>,
}

pub struct ProtoFactionView {
    pub id: Seq<char>,
    pub string: Option<Seq<char>>,
    pub culture: Option<Seq<char>>,
    pub loading_screen_icon: Option<Seq<char>>,
    pub logo_index: Option<Seq<char>>,
}

impl DeepView for ProtoFaction {
    type V = ProtoFactionView;

    open spec fn deep_view(&self) -> ProtoFactionView {
        ProtoFactionView {
            id: self.id@,
            string: self.string.deep_view(),
            culture: self.culture.deep_view(),
            loading_screen_icon: self.loading_screen_icon.deep_view(),
            logo_index: self.logo_index.deep_view(),
        }
    }
}

/// The faction that a JSON5 entry describes: `string` is its name and
/// `loading screen icon` its logo; each of these and `culture` is required.
pub open spec fn faction_of(p: ProtoFactionView) -> Result<FactionView, ParseError> {
    match (p.string, p.culture, p.loading_screen_icon) {
        (None, _, _) => Err(ParseError::Missing("string")),
        (Some(_), None, _) => Err(ParseError::Missing("culture")),
        (Some(_), Some(_), None) => Err(ParseError::Missing("loading screen icon")),
        (Some(n), Some(c), Some(l)) => Ok(FactionView { id: p.id, name: n, culture: c, logo: l }),
    }
}

/// The factions of the entries, in order; the first refused entry decides
/// the error.
pub open spec fn factions_of(ps: Seq<ProtoFactionView>) -> Result<Seq<FactionView>, ParseError>
    decreases ps.len(),
{
    if ps.len() == 0 {
        Ok(seq![])
    } else {
        match factions_of(ps.drop_last()) {
            Err(e) => Err(e),
            Ok(fs) => match faction_of(ps.last()) {
                Err(e) => Err(e),
                Ok(f) => Ok(fs.push(f)),
            },
        }
    }
}

proof fn lemma_factions_err(ps: Seq<ProtoFactionView>, k: int)
    requires
        0 <= k <= ps.len(),
        factions_of(ps.take(k)) is Err,
    ensures
        factions_of(ps) == factions_of(ps.take(k)),
    decreases ps.len() - k,
{
    if k < ps.len() {
        assert(ps.take(k + 1).drop_last() =~= ps.take(k));
        lemma_factions_err(ps, k + 1);
    } else {
        assert(ps.take(k) =~= ps);
    }
}

/// Turns a remaster faction list into the JSON5 document that holds it.
pub fn json5_text(data: &str) -> (res: Result<String, ParseError>)
    ensures
        match (res, json5_document(data@)) {
            (Ok(a), Ok(b)) => a@ == b,
            (Err(e), Err(f)) => e == f,
            _ => false,
        },
{
    let ls = clean_lines_of(data);
    let ghost all = views(ls@);
    let mut t: Vec<char> = Vec::new();
    let mut i: usize = 0;
    assert(all.take(0) =~= Seq::<Seq<char>>::empty());
    while i < ls.len()
        invariant
            0 <= i <= ls.len(),
            all == views(ls@),
            t@ == join_lines(all.take(i as int)),
        decreases ls.len() - i,
    {
        assert(all.take(i + 1).drop_last() =~= all.take(i as int));
        assert(all.take(i + 1).last() == ls@[i as int]@);
        if i > 0 {
            t.push('\n');
        }
        let mut j: usize = 0;
        let ghost before = t@;
        while j < ls[i].len()
            invariant
                0 <= j <= ls@[i as int]@.len(),
                i < ls.len(),
                t@ == before + ls@[i as int]@.take(j as int),
            decreases ls@[i as int]@.len() - j,
        {
            t.push(ls[i][j]);
            assert(before + ls@[i as int]@.take(j + 1) =~= (before + ls@[i as int]@.take(
                j as int,
            )).push(ls@[i as int]@[j as int]));
            j += 1;
        }
        assert(ls@[i as int]@.take(j as int) =~= ls@[i as int]@);
        if i == 0 {
            assert(before =~= Seq::<char>::empty());
            assert(t@ =~= ls@[i as int]@);
        }
        i += 1;
    }
    assert(all.take(ls.len() as int) =~= all);
    let open = vec!['['];
    assert(open@ =~= seq!['[']);
    let o = crate::chars::find_sep(&t, 0, &open, false);
    assert(t@.skip(0) =~= t@);
    if o == t.len() {
        return Err(ParseError::Missing("["));
    }
    let mut c = t.len();
    assert(t@.take(c as int) =~= t@);
    while c > 0 && t[c - 1] != ']'
        invariant
            0 <= c <= t.len(),
            last_pos(t@, ']') == last_pos(t@.take(c as int), ']'),
        decreases c,
    {
        assert(t@.take(c as int).drop_last() =~= t@.take(c - 1));
        c -= 1;
    }
    if c == 0 {
        assert(t@.take(0) =~= Seq::<char>::empty());
        return Err(ParseError::Missing("]"));
    }
    assert(last_pos(t@.take(c as int), ']') == Some(c - 1));
    let ghost t0 = t@;
    t.set(o, '{');
    t.set(c - 1, '}');
    let mut doc: Vec<char> = Vec::new();
    doc.push('{');
    let mut k: usize = 0;
    while k < t.len()
        invariant
            0 <= k <= t.len(),
            doc@ == seq!['{'] + t@.take(k as int),
        decreases t.len() - k,
    {
        doc.push(t[k]);
        assert(seq!['{'] + t@.take(k + 1) =~= (seq!['{'] + t@.take(k as int)).push(t@[k as int]));
        k += 1;
    }
    doc.push('}');
    assert(t@.take(t.len() as int) =~= t@);
    assert(t@ =~= t0.update(o as int, '{').update(c - 1, '}'));
    Ok(string_of(&doc))
}

/// The factions that the entries of the JSON5 document describe, in order.
pub fn factions_from(entries: Vec<ProtoFaction>) -> (res: Result<Vec<Faction>, ParseError>)
    ensures
        res_faction_view(res) == factions_of(entries.deep_view()),
{
    let ghost ps = entries.deep_view();
    let mut out: Vec<Faction> = Vec::new();
    let mut protos = entries;
    assert(out.deep_view() =~= Seq::<FactionView>::empty());
    assert(ps.take(0) =~= Seq::<ProtoFactionView>::empty());
    while protos.len() > 0
        invariant
            protos.len() <= ps.len(),
            ps == entries.deep_view(),
            forall|j: int|
                0 <= j < protos.len() ==> (#[trigger] protos@[j]).deep_view() == ps[ps.len()
                    - protos.len() + j],
            factions_of(ps.take(ps.len() - protos.len())) == Ok::<_, ParseError>(
                out.deep_view(),
            ),
        decreases protos.len(),
    {
        let ghost k: int = ps.len() - protos.len();
        let p = protos.remove(0);
        assert(p.deep_view() == ps[k]);
        assert(ps.take(k + 1).drop_last() =~= ps.take(k));
        assert(ps.take(k + 1).last() == ps[k]);
        assert(p.string.deep_view() == ps[k].string);
        assert(p.culture.deep_view() == ps[k].culture);
        let name = match p.string {
            None => {
                proof {
                    lemma_factions_err(ps, k + 1);
                }
                return Err(ParseError::Missing("string"));
            },
            Some(s) => s,
        };
        let culture = match p.culture {
            None => {
                proof {
                    lemma_factions_err(ps, k + 1);
                }
                return Err(ParseError::Missing("culture"));
            },
            Some(s) => s,
        };
        let logo = match p.loading_screen_icon {
            None => {
                proof {
                    lemma_factions_err(ps, k + 1);
                }
                return Err(ParseError::Missing("loading screen icon"));
            },
            Some(s) => s,
        };
        let f = Faction { id: p.id, name, culture, logo };
        let ghost old = out.deep_view();
        out.push(f);
        assert(out.deep_view() =~= old.push(f.deep_view()));
    }
    assert(ps.take(ps.len() as int) =~= ps);
    Ok(out)
}

pub open spec fn res_faction_view(r: Result<Vec<Faction>, ParseError>) -> Result<
    Seq<FactionView>,
    ParseError,
> {
    match r {
        Ok(v) => Ok(v.deep_view()),
        Err(e) => Err(e),
    }
}

} // verus!
