//! Pronunciation rules of a language, beyond its dictionaries.

use crate::lexicon::Lexicon;
use crate::token;
use vstd::prelude::*;

verus! {

/// Rules that pronounce words by their spelling.
///
/// An implementation may answer as it likes. One that promises more of its answers says so
/// in `may_answer`.
pub trait LanguageRules {
    /// Whether `answer` is one that may come back for `word` with `tag`.
    open spec fn may_answer(
        &self,
        word: Seq<char>,
        tag: Seq<char>,
        lexicon: Lexicon,
        answer: Option<Seq<char>>,
    ) -> bool {
        true
    }

    /// Pronounces a word by rule, where a rule applies.
    fn apply_rules(&self, word: &str, tag: &str, lexicon: &Lexicon) -> (r: Option<String>)
        ensures
            self.may_answer(word@, tag@, *lexicon, token::phoneme_view(r)),
    ;
}

} // verus!
