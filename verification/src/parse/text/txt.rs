//! `.txt` tables of tagged strings: `{tag}value` entries whose value may run
//! on over the following lines, with comments after `¬` or `;`.
use vstd::prelude::*;

use crate::chars::{
    chars_of, drop_empty, drop_empty_lines, find_sep, lines, map_trim, sep_pos, split_lines,
    starts_with, string_of, subvec, trim_each, views,
};
use crate::parse::ParseError;

verus! {

/// The characters that begin a comment.
pub open spec fn comment_chars() -> Seq<char> {
    seq!['¬', ';']
}

/// The lines of the table: each cut at its first comment character,
/// trimmed, empty ones dropped.
pub open spec fn txt_lines(s: Seq<char>) -> Seq<Seq<char>> {
    drop_empty(
        map_trim(
            Seq::new(
                lines(s).len(),
                |i: int| lines(s)[i].take(sep_pos(lines(s)[i], comment_chars(), false) as int),
            ),
        ),
    )
}

/// The entries of the table: a line that begins with `{` opens an entry,
/// any other line is added to the last entry after a `'\n'`.
pub open spec fn txt_entries(ls: Seq<Seq<char>>) -> Seq<Seq<char>>
    decreases ls.len(),
{
    if ls.len() == 0 {
        seq![]
    } else {
        let es = txt_entries(ls.drop_last());
        let l = ls.last();
        if starts_with(l, seq!['{']) || es.len() == 0 {
            es.push(l)
        } else {
            es.update(es.len() - 1, es.last() + seq!['\n'] + l)
        }
    }
}

/// Whether the first line of the table opens an entry, so that every line
/// belongs to one.
pub open spec fn txt_lead(s: Seq<char>) -> bool {
    txt_lines(s).len() == 0 || starts_with(txt_lines(s)[0], seq!['{'])
}

/// An entry split at its first `}`: the text before it (the tag, with its
/// `{`) and the text after it (the value).
pub open spec fn tag_of(e: Seq<char>) -> Result<(Seq<char>, Seq<char>), ParseError> {
    let p = sep_pos(e, seq!['}'], false);
    if p >= e.len() {
        Err(ParseError::Missing("value"))
    } else {
        Ok((e.take(p as int), e.skip((p + 1) as int)))
    }
}

/// The tags and values of the entries, in order; the first entry without a
/// `}` decides the error.
pub open spec fn tags_of(es: Seq<Seq<char>>) -> Result<Seq<(Seq<char>, Seq<char>)>, ParseError>
    decreases es.len(),
{
    if es.len() == 0 {
        Ok(seq![])
    } else {
        match tags_of(es.drop_last()) {
            Err(e) => Err(e),
            Ok(p) => match tag_of(es.last()) {
                Err(e) => Err(e),
                Ok(t) => Ok(p.push(t)),
            },
        }
    }
}

/// The tagged strings of a `.txt` table, in file order.
pub open spec fn txt_file(s: Seq<char>) -> Result<Seq<(Seq<char>, Seq<char>)>, ParseError> {
    tags_of(txt_entries(txt_lines(s)))
}

pub open spec fn res_pairs(r: Result<Vec<(String, String)>, ParseError>) -> Result<
    Seq<(Seq<char>, Seq<char>)>,
    ParseError,
> {
    match r {
        Ok(v) => Ok(v.deep_view()),
        Err(e) => Err(e),
    }
}

/// Whether `c` begins a comment.
fn is_comment_char(c: char) -> (b: bool)
    ensures
        b == comment_chars().contains(c),
{
    let r = c == '¬' || c == ';';
    assert(comment_chars()[0] == '¬' && comment_chars()[1] == ';');
    proof {
        if comment_chars().contains(c) {
            let k = choose|k: int| 0 <= k < 2 && comment_chars()[k] == c;
        }
    }
    r
}

proof fn lemma_tags_err(es: Seq<Seq<char>>, k: int)
    requires
        0 <= k <= es.len(),
        tags_of(es.take(k)) is Err,
    ensures
        tags_of(es) == tags_of(es.take(k)),
    decreases es.len() - k,
{
    if k < es.len() {
        assert(es.take(k + 1).drop_last() =~= es.take(k));
        lemma_tags_err(es, k + 1);
    } else {
        assert(es.take(k) =~= es);
    }
}

fn parse_tag(e: &Vec<char>) -> (res: Result<(String, String), ParseError>)
    ensures
        match (res, tag_of(e@)) {
            (Ok(a), Ok(b)) => a.0@ == b.0 && a.1@ == b.1,
            (Err(x), Err(y)) => x == y,
            _ => false,
        },
{
    let close = vec!['}'];
    assert(close@ =~= seq!['}']);
    let p = find_sep(e, 0, &close, false);
    assert(e@.skip(0) =~= e@);
    if p == e.len() {
        return Err(ParseError::Missing("value"));
    }
    let tag = subvec(e, 0, p);
    let value = subvec(e, p + 1, e.len());
    assert(value@ =~= e@.skip((p + 1) as int));
    Ok((string_of(&tag), string_of(&value)))
}

/// The lines of a table, cut at comments, trimmed, non-empty.
fn txt_lines_of(data: &str) -> (r: Vec<Vec<char>>)
    ensures
        views(r@) == txt_lines(data@),
{
    let v = chars_of(data);
    let ls = split_lines(&v);
    let seps = vec!['¬', ';'];
    assert(seps@ =~= comment_chars());
    let mut cut: Vec<Vec<char>> = Vec::new();
    let mut i: usize = 0;
    let ghost cs = Seq::new(
        lines(data@).len(),
        |i: int| lines(data@)[i].take(sep_pos(lines(data@)[i], comment_chars(), false) as int),
    );
    while i < ls.len()
        invariant
            0 <= i <= ls.len(),
            views(ls@) == lines(data@),
            seps@ == comment_chars(),
            cs == Seq::new(
                lines(data@).len(),
                |i: int| lines(data@)[i].take(sep_pos(lines(data@)[i], comment_chars(), false) as int),
            ),
            views(cut@) =~= cs.take(i as int),
        decreases ls.len() - i,
    {
        let p = find_sep(&ls[i], 0, &seps, false);
        assert(ls@[i as int]@.skip(0) =~= ls@[i as int]@);
        assert(views(ls@)[i as int] == ls@[i as int]@);
        let b = subvec(&ls[i], 0, p);
        let ghost old = views(cut@);
        cut.push(b);
        assert(views(cut@) =~= old.push(b@));
        assert(cs.take(i + 1) =~= cs.take(i as int).push(b@));
        i += 1;
    }
    assert(views(cut@) =~= cs);
    let tl = trim_each(&cut);
    let ls2 = drop_empty_lines(&tl);
    assert(views(ls2@) == txt_lines(data@));
    ls2
}

/// Whether the first line of a table opens an entry; readers of a table
/// test this first.
pub fn txt_leads(data: &str) -> (b: bool)
    ensures
        b == txt_lead(data@),
{
    let ls = txt_lines_of(data);
    if ls.len() == 0 {
        true
    } else {
        assert(views(ls@)[0] == ls@[0]@);
        let l = subvec(&ls[0], 0, ls[0].len());
        assert(l@ =~= ls@[0]@);
        let b = l.len() > 0 && l[0] == '{';
        assert(b == starts_with(l@, seq!['{'])) by {
            if l@.len() > 0 {
                assert(l@.take(1) =~= seq![l@[0]]);
            }
        }
        b
    }
}

/// Reads a `.txt` table of tagged strings: lines cut at `¬` or `;`,
/// trimmed, non-empty; entries begin with `{`; each entry is split at its
/// first `}` into its tag (with the `{`) and its value.
pub fn parse(data: &str) -> (res: Result<Vec<(String, String)>, ParseError>)
    requires
        txt_lead(data@),
    ensures
        res_pairs(res) == txt_file(data@),
{
    let ls2 = txt_lines_of(data);
    // entries
    let mut es: Vec<Vec<char>> = Vec::new();
    let mut j: usize = 0;
    let ghost all = views(ls2@);
    assert(all == txt_lines(data@));
    while j < ls2.len()
        invariant
            0 <= j <= ls2.len(),
            all == views(ls2@),
            views(es@) == txt_entries(all.take(j as int)),
        decreases ls2.len() - j,
    {
        assert(all.take(j + 1).drop_last() =~= all.take(j as int));
        assert(all.take(j + 1).last() == ls2@[j as int]@);
        let l = subvec(&ls2[j], 0, ls2[j].len());
        assert(l@ =~= ls2@[j as int]@);
        let ghost old = views(es@);
        let starts = l.len() > 0 && l[0] == '{';
        assert(starts == starts_with(l@, seq!['{'])) by {
            if l@.len() > 0 {
                assert(l@.take(1) =~= seq![l@[0]]);
            }
        }
        if starts || es.len() == 0 {
            es.push(l);
            assert(views(es@) =~= old.push(l@));
        } else {
            let mut last = es.pop().unwrap();
            let ghost lv = last@;
            last.push('\n');
            let mut k: usize = 0;
            while k < l.len()
                invariant
                    0 <= k <= l.len(),
                    last@ == lv + seq!['\n'] + l@.take(k as int),
                decreases l.len() - k,
            {
                last.push(l[k]);
                assert(lv + seq!['\n'] + l@.take(k + 1) =~= (lv + seq!['\n'] + l@.take(
                    k as int,
                )).push(l@[k as int]));
                k += 1;
            }
            assert(l@.take(l.len() as int) =~= l@);
            es.push(last);
            assert(views(es@) =~= old.update(old.len() - 1, old.last() + seq!['\n'] + l@));
        }
        j += 1;
    }
    assert(all.take(ls2.len() as int) =~= all);
    let ghost ents = views(es@);
    let mut out: Vec<(String, String)> = Vec::new();
    let mut k: usize = 0;
    assert(ents.take(0) =~= Seq::<Seq<char>>::empty());
    assert(out.deep_view() =~= Seq::<(Seq<char>, Seq<char>)>::empty());
    while k < es.len()
        invariant
            0 <= k <= es.len(),
            ents == views(es@),
            ents == txt_entries(txt_lines(data@)),
            tags_of(ents.take(k as int)) == Ok::<_, ParseError>(out.deep_view()),
        decreases es.len() - k,
    {
        assert(ents.take(k + 1).drop_last() =~= ents.take(k as int));
        assert(ents.take(k + 1).last() == es@[k as int]@);
        match parse_tag(&es[k]) {
            Err(e) => {
                proof {
                    lemma_tags_err(ents, k + 1);
                }
                return Err(e);
            },
            Ok(t) => {
                let ghost old = out.deep_view();
                out.push(t);
                assert(out.deep_view() =~= old.push(t.deep_view()));
            },
        }
        k += 1;
    }
    assert(ents.take(es.len() as int) =~= ents);
    Ok(out)
}

} // verus!
