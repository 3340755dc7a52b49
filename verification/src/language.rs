//! The dialects that the engine speaks.

use vstd::prelude::*;

verus! {

/// A dialect.
#[derive(Debug, Clone, Copy, PartialEq, Eq, Structural)]
pub enum Language {
    EnglishUS,
    EnglishGB,
}

/// A list of dictionary entries.
#[derive(Debug, Clone, Copy, PartialEq, Eq, Structural)]
pub enum Dictionary {
    UsGold,
    UsSilver,
    GbGold,
    GbSilver,
}

impl Language {
    /// The lists of a dialect's certain and likely entries.
    pub fn dictionaries(self) -> (r: (Dictionary, Dictionary))
        ensures
            r == match self {
                Language::EnglishUS => (Dictionary::UsGold, Dictionary::UsSilver),
                Language::EnglishGB => (Dictionary::GbGold, Dictionary::GbSilver),
            },
    {
        match self {
            Language::EnglishUS => (Dictionary::UsGold, Dictionary::UsSilver),
            Language::EnglishGB => (Dictionary::GbGold, Dictionary::GbSilver),
        }
    }
}

} // verus!
