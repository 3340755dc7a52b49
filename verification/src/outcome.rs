//! Which results the engine may give for a text.
//!
//! Everything is fixed by the text and the dictionaries but for what the tagger, the rules
//! and the fallback answer, and each of those is asked for just what is stated here.

use crate::fallback::FallbackError;
use crate::g2p::{G2PError, G2P};
use crate::lexicon::TokenContext;
use crate::links;
use crate::marks;
use crate::number;
use crate::sounds;
use crate::steps;
use crate::stress::Stress;
use crate::text;
use crate::token;
use crate::token::{MToken, Token};
use crate::tokenize;
use crate::unicode;
use vstd::prelude::*;

verus! {

/// One where a text holds an ASCII digit, else zero.
pub open spec fn digit_rank(s: Seq<char>) -> nat {
    if exists|i: int| 0 <= i < s.len() && number::is_digit(#[trigger] s[i]) {
        1
    } else {
        0
    }
}

/// One where a text holds a character with a plain form other than itself, else zero.
pub open spec fn accent_rank(s: Seq<char>) -> nat {
    if exists|i: int| 0 <= i < s.len() && sounds::base_char(#[trigger] s[i]) != s[i] {
        1
    } else {
        0
    }
}

/// Whether reading `a` is a smaller task than reading `b`: no digits where there were some,
/// or fewer characters, or no accents where there were some.
pub open spec fn is_smaller(a: Seq<char>, b: Seq<char>) -> bool {
    ||| digit_rank(a) < digit_rank(b)
    ||| digit_rank(a) == digit_rank(b) && a.len() < b.len()
    ||| digit_rank(a) == digit_rank(b) && a.len() == b.len() && accent_rank(a) < accent_rank(b)
}

/// The bytes that the tokens of a text span.
pub open spec fn byte_ranges(plain: Seq<char>) -> Seq<(int, int)> {
    tokenize::token_spans(plain).map_values(
        |span: (int, int)|
            (
                text::utf8_len(plain.take(span.0)) as int,
                text::utf8_len(plain.take(span.1)) as int,
            ),
    )
}

/// The tokens of a text with markup, with what the markup asks of them.
pub open spec fn marked_tokens(input: Seq<char>) -> Seq<Token> {
    let plain = links::plain_text(input);
    marks::mark_all(tokenize::raw_tokens(plain), byte_ranges(plain), links::markers_of(input))
}

/// The texts of tokens.
pub open spec fn texts_of(tokens: Seq<Token>) -> Seq<Seq<char>> {
    tokens.map_values(|t: Token| t.text)
}

/// Tokens with the given tags, as far as those reach.
pub open spec fn with_tags(tokens: Seq<Token>, tags: Seq<Seq<char>>) -> Seq<Token> {
    Seq::new(
        tokens.len(),
        |k: int|
            if k < tags.len() {
                Token { tag: tags[k], ..tokens[k] }
            } else {
                tokens[k]
            },
    )
}

/// Whether tokens differ in nothing but their phonemes.
pub open spec fn same_but_phonemes(a: Seq<Token>, b: Seq<Token>) -> bool {
    &&& a.len() == b.len()
    &&& forall|k: int|
        0 <= k < a.len() ==> (#[trigger] b[k]) == (Token { phonemes: b[k].phonemes, ..a[k] })
}

/// The phonemes of tokens with what stands behind each, one behind the other.
pub open spec fn spoken_text(tokens: Seq<Token>) -> Seq<char>
    decreases tokens.len(),
{
    if tokens.len() == 0 {
        Seq::empty()
    } else {
        let last = tokens.last();
        let ps = match last.phonemes {
            Some(ps) => ps,
            None => Seq::empty(),
        };
        spoken_text(tokens.drop_last()) + ps + last.whitespace
    }
}

/// Whether one list is shorter than another.
pub open spec fn is_shorter(a: Seq<Seq<char>>, b: Seq<Seq<char>>) -> bool {
    a.len() < b.len()
}

/// What a call of the engine gives back.
pub open spec fn g2p_view(r: Result<(String, Vec<MToken>), G2PError>) -> Result<
    (Seq<char>, Seq<Token>),
    FallbackError,
> {
    match r {
        Ok((out, tokens)) => Ok((out@, token::token_views(tokens@))),
        Err(G2PError::Fallback(e)) => Err(e),
    }
}

/// The phonemes of a word, or why there are none.
pub open spec fn word_view(r: Result<String, G2PError>) -> Result<Seq<char>, FallbackError> {
    match r {
        Ok(ps) => Ok(ps@),
        Err(G2PError::Fallback(e)) => Err(e),
    }
}

impl G2P {
    /// The stress of a token: what markup asks for, else that of its casing.
    pub open spec fn stress_for(&self, t: Token) -> Option<Stress> {
        match t.stress {
            Some(s) => Some(s),
            None => if t.text == unicode::lowercase(t.text) {
                None
            } else if t.text == unicode::uppercase(t.text) {
                Some(self.lexicon.cap_stresses.1)
            } else {
                Some(self.lexicon.cap_stresses.0)
            },
        }
    }

    /// Whether tokens are `base` with tags that the tagger may give their texts, and with
    /// phonemes of their own.
    pub open spec fn is_tagged(&self, base: Seq<Token>, tokens: Seq<Token>) -> bool {
        exists|tags: Seq<Seq<char>>| #[trigger]
            self.may_tag(texts_of(base), tags) && same_but_phonemes(with_tags(base, tags), tokens)
    }

    /// Whether `r` may come back for a text.
    ///
    /// The text is stripped of its markup and cut into tokens, the tokens are marked and
    /// tagged and then read from the last to the first. If all can be read, the result is
    /// their phonemes; else it is the error of the first that cannot.
    pub open spec fn outcome(
        &self,
        input: Seq<char>,
        r: Result<(Seq<char>, Seq<Token>), FallbackError>,
    ) -> bool
        decreases digit_rank(input), input.len(), accent_rank(input), 7nat,
    {
        let base = marked_tokens(input);
        match r {
            Ok((out, tokens)) => {
                &&& self.reads_from(input, base, tokens, 0)
                &&& out == spoken_text(tokens)
            },
            Err(e) => exists|tokens: Seq<Token>, k: int| #[trigger]
                self.is_tagged(base, tokens) && 0 <= k < base.len() && (
                #[trigger] base[k]).phonemes is None && self.reads_from(input, base, tokens, k + 1)
                    && self.token_outcome(input, base, tokens, k, Err(e)),
        }
    }

    /// Whether the tokens from `n` on may be read as their phonemes say.
    pub open spec fn reads_from(
        &self,
        input: Seq<char>,
        base: Seq<Token>,
        tokens: Seq<Token>,
        n: int,
    ) -> bool
        decreases digit_rank(input), input.len(), accent_rank(input), 6nat,
    {
        &&& self.is_tagged(base, tokens)
        &&& forall|k: int|
            n <= k < tokens.len() && 0 <= k ==> {
                &&& (#[trigger] tokens[k]).phonemes is Some
                &&& self.token_outcome(input, base, tokens, k, Ok(tokens[k].phonemes->0))
            }
    }

    /// Whether `r` may come back for the `k`th token, given those behind it: what markup
    /// gives it, else the reading of its text.
    pub open spec fn token_outcome(
        &self,
        input: Seq<char>,
        base: Seq<Token>,
        tokens: Seq<Token>,
        k: int,
        r: Result<Seq<char>, FallbackError>,
    ) -> bool
        decreases digit_rank(input), input.len(), accent_rank(input), 5nat,
    {
        match base[k].phonemes {
            Some(ps) => r == Ok::<Seq<char>, FallbackError>(ps),
            None => self.word_outcome(
                input,
                tokens[k].text,
                tokens[k].tag,
                self.stress_for(tokens[k]),
                sounds::context_of(tokens, k),
                r,
            ),
        }
    }

    /// What the fallback may reply to a word; nothing comes back if there is no fallback.
    pub open spec fn may_reply(
        &self,
        word: Seq<char>,
        reply: Option<Result<Seq<char>, FallbackError>>,
    ) -> bool {
        match reply {
            Some(answer) => self.fallback_may_answer(word, answer),
            None => !self.has_fallback(),
        }
    }

    /// What the lexicon has for a word.
    pub open spec fn lexicon_answer(
        &self,
        word: Seq<char>,
        tag: Seq<char>,
        stress: Option<Stress>,
        ctx: TokenContext,
    ) -> Option<Seq<char>> {
        match self.lexicon.pronounced(word, tag, stress, Some(&ctx)) {
            Some((ps, _)) => Some(ps),
            None => None,
        }
    }

    /// Whether `r` may come back for a word of a text: the lexicon is asked first, then
    /// perhaps the rules, and after them perhaps the fallback.
    pub open spec fn word_outcome(
        &self,
        input: Seq<char>,
        word: Seq<char>,
        tag: Seq<char>,
        stress: Option<Stress>,
        ctx: TokenContext,
        r: Result<Seq<char>, FallbackError>,
    ) -> bool
        decreases digit_rank(input), input.len(), accent_rank(input), 4nat,
    {
        let first = steps::after_lexicon(word, self.lexicon_answer(word, tag, stress, ctx));
        if first is AskRules {
            exists|answer: Option<Seq<char>>| #[trigger]
                self.rules_may_answer(word, tag, answer) && {
                    let second = steps::after_rules(word, self.unk@, answer);
                    if second is AskFallback {
                        exists|reply: Option<Result<Seq<char>, FallbackError>>| #[trigger]
                            self.may_reply(word, reply) && self.move_outcome(
                                input,
                                steps::after_fallback(word, reply),
                                r,
                            )
                    } else {
                        self.move_outcome(input, second, r)
                    }
                }
        } else {
            self.move_outcome(input, first, r)
        }
    }

    /// Whether `r` may come of a step that asks nobody.
    pub open spec fn move_outcome(
        &self,
        input: Seq<char>,
        step: steps::Move,
        r: Result<Seq<char>, FallbackError>,
    ) -> bool
        decreases digit_rank(input), input.len(), accent_rank(input), 3nat,
    {
        match step {
            steps::Move::Say(ps) => r == Ok::<Seq<char>, FallbackError>(ps),
            steps::Move::Fail(e) => r == Err::<Seq<char>, FallbackError>(e),
            steps::Move::ReadParts(parts) => self.list_outcome(input, parts, r),
            steps::Move::ReadInstead(s) => self.sub_outcome(input, s, r),
            _ => false,
        }
    }

    /// Whether `r` may come back for a list of texts: their readings with spaces between, or
    /// the error of the first that cannot be read.
    pub open spec fn list_outcome(
        &self,
        input: Seq<char>,
        items: Seq<Seq<char>>,
        r: Result<Seq<char>, FallbackError>,
    ) -> bool
        decreases digit_rank(input), input.len(), accent_rank(input), 2nat,
    {
        match r {
            Ok(ps) => exists|subs: Seq<Seq<char>>|
                subs.len() == items.len() && ps == #[trigger] text::joined(subs, " "@)
                    && self.list_reads(input, items, subs),
            Err(e) => exists|subs: Seq<Seq<char>>| #[trigger]
                is_shorter(subs, items) && self.list_reads(input, items, subs)
                    && self.sub_outcome(input, items[subs.len() as int], Err(e)),
        }
    }

    /// Whether the first texts of a list may be read as `subs` say.
    pub open spec fn list_reads(
        &self,
        input: Seq<char>,
        items: Seq<Seq<char>>,
        subs: Seq<Seq<char>>,
    ) -> bool
        decreases digit_rank(input), input.len(), accent_rank(input), 1nat,
    {
        &&& subs.len() <= items.len()
        &&& forall|j: int|
            0 <= j < subs.len() ==> self.sub_outcome(input, items[j], Ok(#[trigger] subs[j]))
    }

    /// Whether `r` may come back for a text that is read as part of reading another. Such a
    /// text is always the smaller task.
    pub open spec fn sub_outcome(
        &self,
        input: Seq<char>,
        sub: Seq<char>,
        r: Result<Seq<char>, FallbackError>,
    ) -> bool
        decreases digit_rank(input), input.len(), accent_rank(input), 0nat,
    {
        is_smaller(sub, input) && match r {
            Ok(out) => exists|tokens: Seq<Token>|
                out == #[trigger] spoken_text(tokens) && self.outcome(sub, Ok((out, tokens))),
            Err(e) => self.outcome(sub, Err(e)),
        }
    }
}

} // verus!
