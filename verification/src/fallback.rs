//! The last resort for words that neither the dictionaries nor the rules can pronounce.

use vstd::prelude::*;

verus! {

/// Why a fallback gave no pronunciation.
#[derive(Debug)]
pub struct FallbackError {
    pub message: String,
}

/// A pronunciation, or why there is none.
pub open spec fn answer_view(r: Result<String, FallbackError>) -> Result<Seq<char>, FallbackError> {
    match r {
        Ok(ps) => Ok(ps@),
        Err(e) => Err(e),
    }
}

/// A source of pronunciations for unknown words.
///
/// An implementation may answer as it likes, and differently each time. One that promises
/// more of its answers says so in `may_answer`.
pub trait Fallback {
    /// Whether `answer` is one that may come back for `word`.
    open spec fn may_answer(
        &self,
        word: Seq<char>,
        answer: Result<Seq<char>, FallbackError>,
    ) -> bool {
        true
    }

    /// Pronounces a word.
    fn phonemize(&self, word: &str) -> (r: Result<String, FallbackError>)
        ensures
            self.may_answer(word@, answer_view(r)),
    ;
}

} // verus!
