//! What is done about a word, one step after the other.
//!
//! The lexicon is asked first. A word that it does not know is read as the number that it
//! writes, sign included, or taken apart at its hyphens; else the rules are asked, then the
//! fallback, and at last the word is spelt.

use crate::fallback;
use crate::fallback::FallbackError;
use crate::number;
use crate::sounds;
use crate::text;
use crate::token;
use vstd::prelude::*;

verus! {

/// What to do next about a word.
#[derive(Debug)]
pub enum Step {
    /// These phonemes are its pronunciation.
    Say(String),
    /// It cannot be pronounced.
    Fail(FallbackError),
    /// Read these texts, and put spaces between their pronunciations.
    ReadParts(Vec<String>),
    /// Read this text in its place.
    ReadInstead(String),
    /// Ask the rules.
    AskRules,
    /// Ask the fallback.
    AskFallback,
}

/// A step's contents.
pub enum Move {
    Say(Seq<char>),
    Fail(FallbackError),
    ReadParts(Seq<Seq<char>>),
    ReadInstead(Seq<char>),
    AskRules,
    AskFallback,
}

impl View for Step {
    type V = Move;

    open spec fn view(&self) -> Move {
        match self {
            Step::Say(ps) => Move::Say(ps@),
            Step::Fail(e) => Move::Fail(*e),
            Step::ReadParts(parts) => Move::ReadParts(text::views(parts@)),
            Step::ReadInstead(s) => Move::ReadInstead(s@),
            Step::AskRules => Move::AskRules,
            Step::AskFallback => Move::AskFallback,
        }
    }
}

/// Whether a word holds a hyphen and is more than that.
pub open spec fn is_hyphenated(word: Seq<char>) -> bool {
    word.contains('-') && text::utf8_len(word) > 1
}

/// The pieces of a word between its hyphens, without the empty ones.
pub open spec fn hyphen_parts(word: Seq<char>) -> Seq<Seq<char>> {
    text::split(word, '-').filter(|p: Seq<char>| p.len() > 0)
}

/// The characters of a word, each as a text of its own.
pub open spec fn letters_of(word: Seq<char>) -> Seq<Seq<char>> {
    word.map_values(|c: char| seq![c])
}

/// What is done once the lexicon has answered.
pub open spec fn after_lexicon(word: Seq<char>, answer: Option<Seq<char>>) -> Move {
    match answer {
        Some(ps) => Move::Say(ps),
        None => if number::number_in(word) is Some && number::spoken(word) != word {
            Move::ReadInstead(number::spoken(word))
        } else if is_hyphenated(word) {
            Move::ReadParts(hyphen_parts(word))
        } else {
            Move::AskRules
        },
    }
}

/// What is done once the rules have answered. A word of several characters goes to the
/// fallback; a single character is read in its plain form, or as a symbol.
pub open spec fn after_rules(word: Seq<char>, unk: Seq<char>, answer: Option<Seq<char>>) -> Move {
    match answer {
        Some(ps) => Move::Say(ps),
        None => if word.len() > 1 {
            Move::AskFallback
        } else if sounds::normalized(word) != word {
            Move::ReadInstead(sounds::normalized(word))
        } else {
            Move::Say(sounds::symbol_sound(word, unk))
        },
    }
}

/// What is done once the fallback has answered, or if there is none.
pub open spec fn after_fallback(
    word: Seq<char>,
    answer: Option<Result<Seq<char>, FallbackError>>,
) -> Move {
    match answer {
        Some(Ok(ps)) => Move::Say(ps),
        Some(Err(e)) => Move::Fail(e),
        None => Move::ReadParts(letters_of(word)),
    }
}

/// A fallback's answer, where there is a fallback.
pub open spec fn reply_view(r: Option<Result<String, FallbackError>>) -> Option<
    Result<Seq<char>, FallbackError>,
> {
    match r {
        Some(a) => Some(fallback::answer_view(a)),
        None => None,
    }
}

/// Takes a word apart at its hyphens.
fn cut_at_hyphens(word: &str) -> (r: Vec<String>)
    ensures
        text::views(r@) == hyphen_parts(word@),
{
    let all = text::split_char(word, '-');
    let ghost whole = text::split(word@, '-');
    let ghost kept = |p: Seq<char>| p.len() > 0;
    let mut r: Vec<String> = Vec::new();
    proof {
        reveal(Seq::filter);
        assert(text::views(r@) =~= whole.take(0).filter(kept));
    }
    for part in it: all
        invariant
            it.seq() == all@,
            whole == text::views(all@),
            kept == (|p: Seq<char>| p.len() > 0),
            text::views(r@) == whole.take(it.index()).filter(kept),
    {
        proof {
            reveal(Seq::filter);
            assert(whole.take(it.index() + 1).drop_last() =~= whole.take(it.index()));
            assert(whole.take(it.index() + 1).last() == part@);
            text::lemma_views_push(r@, part);
        }
        if part.as_str().unicode_len() > 0 {
            r.push(part);
        }
    }
    assert(whole.take(all@.len() as int) =~= whole);
    r
}

/// Takes a word apart into its characters.
fn cut_into_letters(word: &str) -> (r: Vec<String>)
    ensures
        text::views(r@) == letters_of(word@),
{
    let v = text::chars_of(word);
    let mut r: Vec<String> = Vec::new();
    let mut i: usize = 0;
    assert(text::views(r@) =~= letters_of(word@).take(0));
    while i < v.len()
        invariant
            i <= v@.len(),
            v@ == word@,
            text::views(r@) == letters_of(word@).take(i as int),
        decreases v@.len() - i,
    {
        let letter = text::string_of(&v, i, i + 1);
        proof {
            assert(letter@ =~= seq![word@[i as int]]);
            text::lemma_views_push(r@, letter);
            let done = letters_of(word@).take(i as int);
            assert(letters_of(word@).take(i + 1) =~= done.push(letter@));
        }
        r.push(letter);
        i = i + 1;
    }
    assert(letters_of(word@).take(v@.len() as int) =~= letters_of(word@));
    r
}

impl Step {
    /// Goes on from what the lexicon answered.
    pub fn from_lexicon(word: &str, answer: Option<String>) -> (r: Step)
        ensures
            r@ == after_lexicon(word@, token::phoneme_view(answer)),
            r matches Step::ReadInstead(words) ==> forall|i: int|
                0 <= i < words@.len() ==> number::is_word_char(#[trigger] words@[i]),
    {
        if let Some(ps) = answer {
            return Step::Say(ps);
        }
        if number::find_number(word).is_some() {
            let spoken = number::speak(word);
            if !text::same(spoken.as_str(), word) {
                return Step::ReadInstead(spoken);
            }
        }
        if text::contains_char(word, '-') && text::byte_len(word) > 1 {
            return Step::ReadParts(cut_at_hyphens(word));
        }
        Step::AskRules
    }

    /// Goes on from what the rules answered.
    pub fn from_rules(word: &str, unk: &str, answer: Option<String>) -> (r: Step)
        ensures
            r@ == after_rules(word@, unk@, token::phoneme_view(answer)),
    {
        if let Some(ps) = answer {
            return Step::Say(ps);
        }
        if word.unicode_len() > 1 {
            return Step::AskFallback;
        }
        let plain = sounds::normalize(word);
        if !text::same(plain.as_str(), word) {
            return Step::ReadInstead(plain);
        }
        Step::Say(sounds::read_symbol(word, unk))
    }

    /// Goes on from what the fallback answered, or without one.
    pub fn from_fallback(word: &str, answer: Option<Result<String, FallbackError>>) -> (r: Step)
        ensures
            r@ == after_fallback(word@, reply_view(answer)),
    {
        match answer {
            Some(Ok(ps)) => Step::Say(ps),
            Some(Err(e)) => Step::Fail(e),
            None => Step::ReadParts(cut_into_letters(word)),
        }
    }
}

} // verus!
