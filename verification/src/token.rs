//! Tokens: stretches of text with their tag and pronunciation.

use crate::stress::Stress;
use vstd::prelude::*;

verus! {

/// What markup asks of a token.
#[derive(Debug, Clone)]
pub struct Underscore {
    pub stress: Option<Stress>,
    pub num_flags: String,
}

/// A stretch of text.
#[derive(Debug, Clone)]
pub struct MToken {
    pub text: String,
    /// The part of speech.
    pub tag: String,
    /// What stands behind the token in the output.
    pub whitespace: String,
    pub phonemes: Option<String>,
    pub extra: Underscore,
}

/// A token's contents.
pub struct Token {
    pub text: Seq<char>,
    pub tag: Seq<char>,
    pub whitespace: Seq<char>,
    pub phonemes: Option<Seq<char>>,
    pub stress: Option<Stress>,
    pub num_flags: Seq<char>,
}

/// A pronunciation that may be missing.
pub open spec fn phoneme_view(p: Option<String>) -> Option<Seq<char>> {
    match p {
        Some(ps) => Some(ps@),
        None => None,
    }
}

impl View for MToken {
    type V = Token;

    open spec fn view(&self) -> Token {
        Token {
            text: self.text@,
            tag: self.tag@,
            whitespace: self.whitespace@,
            phonemes: phoneme_view(self.phonemes),
            stress: self.extra.stress,
            num_flags: self.extra.num_flags@,
        }
    }
}

/// A token that nothing is known of yet but its text and tag.
pub open spec fn fresh(text: Seq<char>, tag: Seq<char>, whitespace: Seq<char>) -> Token {
    Token { text, tag, whitespace, phonemes: None, stress: None, num_flags: Seq::empty() }
}

/// The contents of each token of a list.
pub open spec fn token_views(tokens: Seq<MToken>) -> Seq<Token> {
    tokens.map_values(|t: MToken| t@)
}

impl MToken {
    /// A token without pronunciation.
    pub fn new(text: String, tag: String, whitespace: String) -> (r: Self)
        ensures
            r@ == fresh(text@, tag@, whitespace@),
    {
        MToken {
            text,
            tag,
            whitespace,
            phonemes: None,
            extra: Underscore { stress: None, num_flags: String::new() },
        }
    }

    /// What markup asks of the token.
    pub fn underscore(&self) -> (r: &Underscore)
        ensures
            *r == self.extra,
    {
        &self.extra
    }

    /// What markup asks of the token, to be changed.
    pub fn underscore_mut(&mut self) -> (r: &mut Underscore)
        ensures
            *r == old(self).extra,
            *final(self) == (MToken { extra: *final(r), ..*old(self) }),
    {
        &mut self.extra
    }
}

} // verus!
