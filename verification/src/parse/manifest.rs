//! The parts of a mod's manifest that the readers use.
use vstd::prelude::*;
use vstd::string::StringExecFns;

verus! {

/// Which game a mod's data files are written for.
#[derive(Debug, Clone, Copy, PartialEq, Eq, Structural)]
pub enum ParserMode {
    Original,
    Remastered,
    Medieval2,
}

impl Default for ParserMode {
    fn default() -> (m: Self)
        ensures
            m == ParserMode::Remastered,
    {
        ParserMode::Remastered
    }
}

/// The campaign whose maps are used where the manifest names none.
pub fn default_campaign() -> (s: String)
    ensures
        s@ == "imperial_campaign"@,
{
    String::from_str("imperial_campaign")
}

/// The path of the banner image where the manifest names none.
pub fn default_banner() -> (s: String)
    ensures
        s@ == "faust/banner.png"@,
{
    String::from_str("faust/banner.png")
}

} // verus!
