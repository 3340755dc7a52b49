//! The engine: from text to phonemes.

use crate::fallback::{Fallback, FallbackError};
use crate::language::Language;
use crate::languages::LanguageRules;
use crate::lexicon::{Lexicon, PhonemeEntry};
use crate::links;
use crate::links::LinkMarker;
use crate::number;
use crate::tagger::Tagger;
use crate::text;
use crate::token;
use crate::token::MToken;
use crate::tokenize;
use crate::tokenize::Tokenizer;
use std::collections::HashMap;
use std::ops::Range;
use vstd::prelude::*;

verus! {

/// Why a text could not be turned into phonemes.
#[derive(Debug)]
pub enum G2PError {
    Fallback(FallbackError),
}

impl From<FallbackError> for G2PError {
    fn from(e: FallbackError) -> (r: Self) {
        G2PError::Fallback(e)
    }
}

impl vstd::std_specs::convert::FromSpecImpl<FallbackError> for G2PError {
    open spec fn obeys_from_spec() -> bool {
        true
    }

    open spec fn from_spec(e: FallbackError) -> G2PError {
        G2PError::Fallback(e)
    }
}

impl G2PError {
    /// What to tell a user.
    pub fn message(&self) -> (r: String)
        ensures
            self matches G2PError::Fallback(e) && r@ == "fallback error: "@ + e.message@,
    {
        match self {
            G2PError::Fallback(e) => text::concat("fallback error: ", e.message.as_str()),
        }
    }
}

/// What the engine asks of others for every text.
pub struct Services {
    pub tagger: Box<dyn Tagger>,
    pub rules: Box<dyn LanguageRules>,
}

/// What the engine of a dialect is built from.
pub struct Resources {
    /// The certain dictionary entries.
    pub golds: Vec<(String, PhonemeEntry)>,
    /// The likely dictionary entries.
    pub silvers: Vec<(String, PhonemeEntry)>,
    pub services: Services,
}

/// The engine.
pub struct G2P {
    pub lexicon: Lexicon,
    /// What is put in the place of a symbol that cannot be read.
    pub unk: String,
    pub tokenizer: Tokenizer,
    pub services: Services,
    pub fallback: Option<Box<dyn Fallback>>,
}

impl G2P {
    /// Whether the engine has a fallback for unknown words.
    pub open spec fn has_fallback(&self) -> bool {
        self.fallback is Some
    }

    /// Whether the engine's fallback may answer this for a word.
    pub open spec fn fallback_may_answer(
        &self,
        word: Seq<char>,
        answer: Result<Seq<char>, FallbackError>,
    ) -> bool {
        self.fallback is Some && self.fallback->0.may_answer(word, answer)
    }

    /// Whether the engine's rules may answer this for a word.
    pub open spec fn rules_may_answer(
        &self,
        word: Seq<char>,
        tag: Seq<char>,
        answer: Option<Seq<char>>,
    ) -> bool {
        self.services.rules.may_answer(word, tag, self.lexicon, answer)
    }

    /// Whether the engine's tagger may give words these tags.
    pub open spec fn may_tag(&self, words: Seq<Seq<char>>, tags: Seq<Seq<char>>) -> bool {
        self.services.tagger.may_tag(words, tags)
    }

    /// An engine without a fallback.
    pub fn new(lang: Language, resources: Resources) -> (r: Self)
        ensures
            r.lexicon.lang == lang,
            r.lexicon.cap_stresses == (
                crate::stress::Stress { quarters: 2 },
                crate::stress::Stress { quarters: 8 },
            ),
            r.lexicon.golds@ == crate::lexicon::word_map(resources.golds@),
            r.lexicon.silvers@ == crate::lexicon::word_map(resources.silvers@),
            r.unk@ == "❓"@,
            r.services == resources.services,
            !r.has_fallback(),
    {
        G2P {
            lexicon: Lexicon::new(lang, resources.golds, resources.silvers),
            unk: "❓".to_owned(),
            tokenizer: Tokenizer::new(),
            services: resources.services,
            fallback: None,
        }
    }

    /// An engine with the given fallback, or without one.
    pub fn with_fallback(
        lang: Language,
        resources: Resources,
        fallback: Option<Box<dyn Fallback>>,
    ) -> (r: Self)
        ensures
            r.lexicon.lang == lang,
            r.lexicon.cap_stresses == (
                crate::stress::Stress { quarters: 2 },
                crate::stress::Stress { quarters: 8 },
            ),
            r.lexicon.golds@ == crate::lexicon::word_map(resources.golds@),
            r.lexicon.silvers@ == crate::lexicon::word_map(resources.silvers@),
            r.unk@ == "❓"@,
            r.services == resources.services,
            r.fallback == fallback,
    {
        let mut g2p = Self::new(lang, resources);
        g2p.fallback = fallback;
        g2p
    }

    /// A text without its markup and the words of that text. The map is always empty: what
    /// the markup asks for is found by [`G2P::preprocess_links`].
    pub fn preprocess(&self, input: &str) -> (r: (String, Vec<String>, HashMap<usize, String>))
        ensures
            r.0@ == links::plain_text(input@),
            text::views(r.1@) == text::words_from(links::plain_text(input@), 0),
            r.2@ == Map::<usize, String>::empty(),
    {
        let (stripped, _) = self.preprocess_links(input);
        let words = text::split_whitespace(stripped.as_str());
        (stripped, words, HashMap::new())
    }

    /// A text without its markup, and what the markup asks for.
    pub fn preprocess_links(&self, input: &str) -> (r: (String, Vec<LinkMarker>))
        ensures
            r.0@ == links::plain_text(input@),
            links::marker_views(r.1@) == links::markers_of(input@),
    {
        links::strip_links(input)
    }

    /// The tokens of a text.
    pub fn tokenize(&self, input: &str) -> (r: Vec<MToken>)
        ensures
            token::token_views(r@) == tokenize::raw_tokens(input@),
    {
        let pairs = self.tokenize_with_offsets(input);
        let ghost all = pairs@;
        let (tokens, _) = unzip(pairs);
        proof {
            let spans = tokenize::token_spans(input@);
            assert forall|k: int| 0 <= k < spans.len() implies tokens@[k]@
                == #[trigger] tokenize::raw_tokens(input@)[k] by {
                assert(tokenize::is_spanned(all[k], input@, spans[k]));
            }
            assert(token::token_views(tokens@) =~= tokenize::raw_tokens(input@));
        }
        tokens
    }

    /// The tokens of a text, each with the bytes that it spans.
    pub fn tokenize_with_offsets(&self, input: &str) -> (r: Vec<(MToken, Range<usize>)>)
        ensures
            tokenize::in_order(tokenize::token_spans(input@), input@.len() as int),
            r@.len() == tokenize::token_spans(input@).len(),
            forall|k: int|
                0 <= k < r@.len() ==> tokenize::is_spanned(
                    #[trigger] r@[k],
                    input@,
                    tokenize::token_spans(input@)[k],
                ),
            forall|k: int|
                0 <= k < r@.len() ==> tokenize::is_solid(
                    input@,
                    #[trigger] tokenize::token_spans(input@)[k],
                ),
            forall|i: int|
                0 <= i < input@.len() && tokenize::is_counted(#[trigger] input@[i])
                    ==> tokenize::is_spanned_by(tokenize::token_spans(input@), i),
            forall|n: int|
                0 <= n < tokenize::word_spans(input@).len() ==> tokenize::stays_whole(
                    input@,
                    #[trigger] tokenize::word_spans(input@)[n],
                ),
            forall|n: int|
                0 <= n < tokenize::word_spans(input@).len() ==> tokenize::is_cut_inside(
                    input@,
                    #[trigger] tokenize::word_spans(input@)[n],
                ) && tokenize::holds_token(
                    tokenize::word_spans(input@)[n],
                    tokenize::token_spans(input@),
                ),
            forall|k: int|
                0 <= k < r@.len() ==> tokenize::lies_in_word(
                    #[trigger] tokenize::token_spans(input@)[k],
                    tokenize::word_spans(input@),
                ),
            tokenize::is_whole(input@) ==> tokenize::token_spans(input@) == seq![
                (0int, input@.len() as int),
            ],
    {
        self.tokenizer.tokenize(input)
    }

    /// Whether a word writes a number.
    pub fn is_number(&self, word: &str) -> (r: bool)
        ensures
            r == (number::number_in(word@) is Some),
    {
        number::find_number(word).is_some()
    }

    /// The words for the number that a word writes; any other word as it is.
    pub fn convert_number(&self, word: &str) -> (r: String)
        ensures
            r@ == number::spoken(word@),
            number::number_in(word@) is Some ==> forall|i: int|
                0 <= i < r@.len() ==> number::is_word_char(#[trigger] r@[i]),
    {
        number::speak(word)
    }

    /// Asks the tagger.
    pub(crate) fn ask_tagger(&self, words: &Vec<String>) -> (tags: Vec<String>)
        ensures
            self.may_tag(text::views(words@), text::views(tags@)),
    {
        self.services.tagger.tag(words)
    }

    /// Asks the rules.
    pub(crate) fn ask_rules(&self, word: &str, tag: &str) -> (r: Option<String>)
        ensures
            self.rules_may_answer(word@, tag@, token::phoneme_view(r)),
    {
        self.services.rules.apply_rules(word, tag, &self.lexicon)
    }

    /// Asks the fallback, where there is one.
    pub(crate) fn ask_fallback(&self, word: &str) -> (r: Option<Result<String, FallbackError>>)
        ensures
            r is Some <==> self.has_fallback(),
            r matches Some(a) ==> self.fallback_may_answer(
                word@,
                crate::fallback::answer_view(a),
            ),
    {
        match &self.fallback {
            Some(f) => Some(f.phonemize(word)),
            None => None,
        }
    }
}

/// Takes tokens and their bytes apart.
pub(crate) fn unzip(pairs: Vec<(MToken, Range<usize>)>) -> (r: (Vec<MToken>, Vec<Range<usize>>))
    ensures
        r.0@.len() == pairs@.len(),
        r.1@.len() == pairs@.len(),
        forall|k: int| 0 <= k < pairs@.len() ==> r.0@[k] == (#[trigger] pairs@[k]).0,
        forall|k: int| 0 <= k < pairs@.len() ==> r.1@[k] == (#[trigger] pairs@[k]).1,
{
    let mut tokens: Vec<MToken> = Vec::new();
    let mut ranges: Vec<Range<usize>> = Vec::new();
    for pair in it: pairs
        invariant
            it.seq() == pairs@,
            tokens@.len() == it.index(),
            ranges@.len() == it.index(),
            forall|k: int| 0 <= k < it.index() ==> tokens@[k] == (#[trigger] pairs@[k]).0,
            forall|k: int| 0 <= k < it.index() ==> ranges@[k] == (#[trigger] pairs@[k]).1,
    {
        tokens.push(pair.0);
        ranges.push(pair.1);
    }
    (tokens, ranges)
}

} // verus!
