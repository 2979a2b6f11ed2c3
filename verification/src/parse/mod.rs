//! Readers for the data files of a mod, one module per file format.
use vstd::prelude::*;

pub mod descr_cultures;
pub mod descr_mercenaries;
pub mod descr_model_battle;
pub mod descr_mount;
pub mod descr_regions;
pub mod descr_sm_factions;
pub mod descr_strat;
pub mod eval;
pub mod export_descr_buildings;
pub mod export_descr_unit;
pub mod manifest;
pub mod model;
pub mod sd;
pub mod text;
pub mod utils;

verus! {

/// Why a data file could not be read.
#[derive(Debug, Clone, Copy)]
pub enum ParseError {
    /// A record lacks the line with this keyword, or the line has no value.
    KeyNotFound(&'static str),
    /// A piece of data that the format requires is not there.
    Missing(&'static str),
    /// Text that should be a number is not one.
    InvalidNumber(&'static str),
    /// The text does not have the shape that the format requires.
    Invalid(&'static str),
}

} // verus!
