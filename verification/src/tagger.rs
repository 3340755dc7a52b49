//! Part-of-speech tagging.

use crate::text;
use vstd::prelude::*;

verus! {

/// A part-of-speech tagger.
///
/// An implementation may answer as it likes. One that promises more of its answers says so
/// in `may_tag`.
pub trait Tagger {
    /// Whether `tags` are some that may come back for `words`.
    open spec fn may_tag(&self, words: Seq<Seq<char>>, tags: Seq<Seq<char>>) -> bool {
        true
    }

    /// Tags the words of a text.
    fn tag(&self, words: &Vec<String>) -> (r: Vec<String>)
        ensures
            self.may_tag(text::views(words@), text::views(r@)),
    ;
}

} // verus!
