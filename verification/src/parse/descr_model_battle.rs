//! `descr_model_battle.txt`: the battle models and their skeletons.
use vstd::prelude::*;

use crate::chars::{clean_lines, clean_lines_of, fields, split_fields, string_of, subvec, views};
use crate::parse::manifest::ParserMode;
use crate::parse::ParseError;
use crate::records::{
    entries_of, group_by_header, group_lines, group_views, leads_with, lemma_map_all_err,
    lemma_map_all_step, line_value, map_all, record_entries, res_deep, value_of,
};

verus! {

/// A battle model and the skeleton that animates it.
#[derive(Debug)]
pub struct Model {
    pub id: String,
    pub skeleton: String,
}

pub struct ModelView {
    pub id: Seq<char>,
    pub skeleton: Seq<char>,
}

impl DeepView for Model {
    type V = ModelView;

    open spec fn deep_view(&self) -> ModelView {
        ModelView { id: self.id@, skeleton: self.skeleton@ }
    }
}

/// A model record: its `type` (the id) and the first entry of its
/// comma-separated `skeleton` line.
pub open spec fn model_of(g: Seq<Seq<char>>) -> Result<(Seq<char>, ModelView), ParseError> {
    let es = record_entries(g);
    match line_value(es, "type"@) {
        None => Err(ParseError::KeyNotFound("type")),
        Some(id) => match line_value(es, "skeleton"@) {
            None => Err(ParseError::KeyNotFound("skeleton")),
            Some(sk) => {
                let parts = fields(sk, seq![','], false);
                if parts.len() == 0 {
                    Err(ParseError::Missing("skeleton"))
                } else {
                    Ok((id, ModelView { id, skeleton: parts[0] }))
                }
            },
        },
    }
}

pub open spec fn model_reader() -> spec_fn(Seq<Seq<char>>) -> Result<(Seq<char>, ModelView), ParseError> {
    |g: Seq<Seq<char>>| model_of(g)
}

/// The models of a `descr_model_battle.txt` text, keyed by id, in file order.
pub open spec fn model_file(s: Seq<char>) -> Result<Seq<(Seq<char>, ModelView)>, ParseError> {
    map_all(group_by_header(clean_lines(s), "type"@), model_reader())
}

fn parse_model(lines: &Vec<Vec<char>>) -> (res: Result<(String, Model), ParseError>)
    ensures
        res_deep(res) == model_of(views(lines@)),
{
    let es = entries_of(lines);
    let id = match value_of(&es, "type") {
        None => return Err(ParseError::KeyNotFound("type")),
        Some(v) => v,
    };
    let sk = match value_of(&es, "skeleton") {
        None => return Err(ParseError::KeyNotFound("skeleton")),
        Some(v) => v,
    };
    let comma = vec![','];
    assert(comma@ =~= seq![',']);
    let parts = split_fields(&sk, &comma, false);
    if parts.len() == 0 {
        return Err(ParseError::Missing("skeleton"));
    }
    assert(views(parts@)[0] == parts@[0]@);
    Ok((string_of(&id), Model { id: string_of(&id), skeleton: string_of(&parts[0]) }))
}

/// Reads the models of a `descr_model_battle.txt` text: comments cut, lines
/// trimmed and non-empty, grouped into records that each begin with `type`.
pub fn parse(data: &str, _mode: ParserMode) -> (res: Result<Vec<(String, Model)>, ParseError>)
    requires
        leads_with(clean_lines(data@), "type"@),
    ensures
        res_deep(res) == model_file(data@),
{
    let ls = clean_lines_of(data);
    let gs = group_lines(ls, "type");
    let ghost spec_gs = group_by_header(clean_lines(data@), "type"@);
    let ghost f = model_reader();
    let mut out: Vec<(String, Model)> = Vec::new();
    let mut i: usize = 0;
    assert(spec_gs.take(0) =~= Seq::<Seq<Seq<char>>>::empty());
    assert(out.deep_view() =~= Seq::<(Seq<char>, ModelView)>::empty());
    while i < gs.len()
        invariant
            0 <= i <= gs.len(),
            group_views(gs@) == spec_gs,
            spec_gs == group_by_header(clean_lines(data@), "type"@),
            f == model_reader(),
            map_all(spec_gs.take(i as int), f) == Ok::<_, ParseError>(out.deep_view()),
        decreases gs.len() - i,
    {
        proof {
            lemma_map_all_step(spec_gs, f, i as int);
        }
        assert(spec_gs[i as int] == views(gs@[i as int]@));
        assert(f(spec_gs[i as int]) == model_of(spec_gs[i as int]));
        match parse_model(&gs[i]) {
            Err(e) => {
                proof {
                    lemma_map_all_err(spec_gs, f, i + 1, e);
                }
                return Err(e);
            },
            Ok(m) => {
                let ghost old = out.deep_view();
                out.push(m);
                assert(out.deep_view() =~= old.push(m.deep_view()));
            },
        }
        i += 1;
    }
    assert(spec_gs.take(gs.len() as int) =~= spec_gs);
    Ok(out)
}

} // verus!
