//! Readers for the data files of Rome: Total War and Medieval II mods.
use vstd::prelude::*;

pub mod catalog;
pub mod bignum;
pub mod chars;
pub mod records;
pub mod site;
pub mod numbers;
pub mod order;
pub mod parse;
pub mod render;

verus! {

} // verus!
