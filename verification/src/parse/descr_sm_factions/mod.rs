//! `descr_sm_factions.txt`: the factions, in the format of the original game
//! (`og`) and of the remaster (`rr`).
use vstd::prelude::*;

pub mod og;
pub mod rr;

verus! {

/// A faction.
#[derive(Debug)]
pub struct Faction {
    pub id: String,
    pub name: String,
    pub culture: String,
    pub logo: String,
}

pub struct FactionView {
    pub id: Seq<char>,
    pub name: Seq<char>,
    pub culture: Seq<char>,
    pub logo: Seq<char>,
}

impl DeepView for Faction {
    type V = FactionView;

    open spec fn deep_view(&self) -> FactionView {
        FactionView { id: self.id@, name: self.name@, culture: self.culture@, logo: self.logo@ }
    }
}

} // verus!
