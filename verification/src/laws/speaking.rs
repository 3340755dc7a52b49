//! How the tokens of a text come to be read, and what is made of their readings.

use crate::fallback::FallbackError;
use crate::g2p::G2P;
use crate::laws;
use crate::lexicon::TokenContext;
use crate::number;
use crate::outcome;
use crate::sounds;
use crate::steps;
use crate::stress::Stress;
use crate::token::Token;
use crate::unicode;
use vstd::prelude::*;

verus! {

/// A token's stress is what markup asks for; without markup a small word has none, a word in
/// capitals has the second level of casings, and any other the first.
pub proof fn law_level_of_a_token(g: G2P, t: Token)
    ensures
        t.stress is Some ==> g.stress_for(t) == t.stress,
        t.stress is None && t.text == unicode::lowercase(t.text) ==> g.stress_for(t) is None,
        t.stress is None && t.text != unicode::lowercase(t.text) && t.text == unicode::uppercase(
            t.text,
        ) ==> g.stress_for(t) == Some(g.lexicon.cap_stresses.1),
        t.stress is None && t.text != unicode::lowercase(t.text) && t.text != unicode::uppercase(
            t.text,
        ) ==> g.stress_for(t) == Some(g.lexicon.cap_stresses.0),
{
}

/// Tokens are spoken in their order, each with what stands behind it; one without a
/// pronunciation is silent.
pub proof fn law_tokens_are_spoken_in_order(a: Seq<Token>, b: Seq<Token>, t: Token)
    ensures
        outcome::spoken_text(Seq::empty()) == Seq::<char>::empty(),
        outcome::spoken_text(a + b) == outcome::spoken_text(a) + outcome::spoken_text(b),
        t.phonemes matches Some(ps) ==> outcome::spoken_text(seq![t]) == ps + t.whitespace,
        t.phonemes is None ==> outcome::spoken_text(seq![t]) == t.whitespace,
    decreases b.len(),
{
    reveal_with_fuel(outcome::spoken_text, 2);
    assert(seq![t].drop_last() =~= Seq::<Token>::empty());
    assert(seq![t].last() == t);
    if let Some(ps) = t.phonemes {
        assert(Seq::<char>::empty() + ps + t.whitespace =~= ps + t.whitespace);
    } else {
        assert(Seq::<char>::empty() + Seq::<char>::empty() + t.whitespace =~= t.whitespace);
    }
    let x = outcome::spoken_text(a);
    if b.len() == 0 {
        assert(a + b =~= a);
        assert(x + Seq::<char>::empty() =~= x);
    } else {
        law_tokens_are_spoken_in_order(a, b.drop_last(), t);
        assert((a + b).drop_last() =~= a + b.drop_last());
        assert((a + b).last() == b.last());
        let y = outcome::spoken_text(b.drop_last());
        let ps = match b.last().phonemes {
            Some(ps) => ps,
            None => Seq::empty(),
        };
        assert((x + y) + ps + b.last().whitespace =~= x + (y + ps + b.last().whitespace));
    }
}

/// The output of a text is what its tokens are spoken as.
pub proof fn law_output_is_spoken(g: G2P, input: Seq<char>, out: Seq<char>, tokens: Seq<Token>)
    requires
        g.outcome(input, Ok((out, tokens))),
    ensures
        out == outcome::spoken_text(tokens),
        forall|k: int| 0 <= k < tokens.len() ==> (#[trigger] tokens[k]).phonemes is Some,
{
}

/// Whether tokens are those given but for tag and phonemes, and have the given tags as far as
/// these reach.
pub open spec fn are_tagged(base: Seq<Token>, tags: Seq<Seq<char>>, tokens: Seq<Token>) -> bool {
    &&& tokens.len() == base.len()
    &&& forall|k: int|
        0 <= k < base.len() ==> {
            &&& (#[trigger] tokens[k]).text == base[k].text
            &&& tokens[k].whitespace == base[k].whitespace
            &&& tokens[k].stress == base[k].stress
            &&& tokens[k].num_flags == base[k].num_flags
            &&& k < tags.len() ==> tokens[k].tag == tags[k]
            &&& k >= tags.len() ==> tokens[k].tag == base[k].tag
        }
}

/// Whether words are the texts of tokens.
pub open spec fn are_texts(base: Seq<Token>, words: Seq<Seq<char>>) -> bool {
    &&& words.len() == base.len()
    &&& forall|k: int| 0 <= k < base.len() ==> #[trigger] words[k] == base[k].text
}

/// The tagger is asked once for all the texts of a text's tokens, and each token has the tag
/// that it gave for its place, or the one that it had where the tagger gave none.
pub proof fn law_tokens_are_tagged(g: G2P, input: Seq<char>, out: Seq<char>, tokens: Seq<Token>)
    requires
        g.outcome(input, Ok((out, tokens))),
    ensures
        exists|words: Seq<Seq<char>>, tags: Seq<Seq<char>>| #[trigger]
            g.may_tag(words, tags) && are_texts(outcome::marked_tokens(input), words)
                && are_tagged(outcome::marked_tokens(input), tags, tokens),
{
    let base = outcome::marked_tokens(input);
    let words = outcome::texts_of(base);
    assert(g.is_tagged(base, tokens));
    let tags = choose|tags: Seq<Seq<char>>| #[trigger]
        g.may_tag(words, tags) && outcome::same_but_phonemes(
            outcome::with_tags(base, tags),
            tokens,
        );
    assert(are_texts(base, words));
    let given = outcome::with_tags(base, tags);
    assert forall|k: int| 0 <= k < base.len() implies {
        &&& (#[trigger] tokens[k]).text == base[k].text
        &&& tokens[k].whitespace == base[k].whitespace
        &&& tokens[k].stress == base[k].stress
        &&& tokens[k].num_flags == base[k].num_flags
        &&& k < tags.len() ==> tokens[k].tag == tags[k]
        &&& k >= tags.len() ==> tokens[k].tag == base[k].tag
    } by {
        assert(tokens[k] == (Token { phonemes: tokens[k].phonemes, ..given[k] }));
    }
    assert(are_tagged(base, tags, tokens));
}

/// The lexicon's answer is the pronunciation that it has for the word, whatever its rating.
pub proof fn law_any_rating_will_do(
    g: G2P,
    word: Seq<char>,
    tag: Seq<char>,
    level: Option<Stress>,
    ctx: TokenContext,
    ps: Seq<char>,
    rating: i32,
)
    ensures
        g.lexicon.pronounced(word, tag, level, Some(&ctx)) == Some((ps, rating))
            ==> g.lexicon_answer(word, tag, level, ctx) == Some(ps),
        g.lexicon.pronounced(word, tag, level, Some(&ctx)) is None ==> g.lexicon_answer(
            word,
            tag,
            level,
            ctx,
        ) is None,
{
}

/// A token without a pronunciation from markup that the lexicon can pronounce, with its tag,
/// its level and what the token behind it tells, is pronounced that way.
pub proof fn law_known_token(
    g: G2P,
    input: Seq<char>,
    out: Seq<char>,
    tokens: Seq<Token>,
    k: int,
    ps: Seq<char>,
    rating: i32,
)
    requires
        g.outcome(input, Ok((out, tokens))),
        0 <= k,
        k + 1 < tokens.len(),
        outcome::marked_tokens(input)[k].phonemes is None,
        g.lexicon.pronounced(
            tokens[k].text,
            tokens[k].tag,
            g.stress_for(tokens[k]),
            Some(&sounds::context_before(tokens[k + 1])),
        ) == Some((ps, rating)),
    ensures
        tokens[k].phonemes == Some(ps),
{
    laws::reading::law_lexicon_comes_first(g, input, out, tokens, k);
}

/// The last token has nothing behind it, so that neither the next sound nor the word to is
/// known of.
pub proof fn law_known_last_token(
    g: G2P,
    input: Seq<char>,
    out: Seq<char>,
    tokens: Seq<Token>,
    ps: Seq<char>,
    rating: i32,
)
    requires
        g.outcome(input, Ok((out, tokens))),
        tokens.len() > 0,
        outcome::marked_tokens(input)[tokens.len() - 1].phonemes is None,
        g.lexicon.pronounced(
            tokens.last().text,
            tokens.last().tag,
            g.stress_for(tokens.last()),
            Some(&TokenContext { future_vowel: None, future_to: false }),
        ) == Some((ps, rating)),
    ensures
        tokens.last().phonemes == Some(ps),
{
    laws::reading::law_lexicon_comes_first(g, input, out, tokens, tokens.len() - 1);
}

/// A token with a pronunciation from markup is pronounced just so.
pub proof fn law_marked_token(
    g: G2P,
    input: Seq<char>,
    out: Seq<char>,
    tokens: Seq<Token>,
    k: int,
)
    requires
        g.outcome(input, Ok((out, tokens))),
        0 <= k < tokens.len(),
        outcome::marked_tokens(input)[k].phonemes is Some,
    ensures
        tokens[k].phonemes == outcome::marked_tokens(input)[k].phonemes,
{
    let base = outcome::marked_tokens(input);
    assert(tokens[k].phonemes is Some);
    assert(g.token_outcome(input, base, tokens, k, Ok(tokens[k].phonemes->0)));
}

/// If the lexicon and the rules may have nothing for a word of several characters without a
/// hyphen that writes no number, what comes of it is what the fallback may answer, its error
/// included.
pub proof fn law_fallback_decides(
    g: G2P,
    input: Seq<char>,
    word: Seq<char>,
    tag: Seq<char>,
    level: Option<Stress>,
    ctx: TokenContext,
    answer: Result<Seq<char>, FallbackError>,
)
    requires
        g.lexicon.pronounced(word, tag, level, Some(&ctx)) is None,
        number::number_in(word) is None,
        !word.contains('-'),
        word.len() > 1,
        g.rules_may_answer(word, tag, None),
        g.has_fallback(),
        g.fallback_may_answer(word, answer),
    ensures
        g.word_outcome(input, word, tag, level, ctx, answer),
{
    laws::steps::law_word_goes_to_its_parts_or_the_rules(word);
    let reply = Some(answer);
    assert(g.may_reply(word, reply));
    let step = steps::after_fallback(word, reply);
    assert(g.move_outcome(input, step, answer));
    let none: Option<Seq<char>> = None;
    assert(g.rules_may_answer(word, tag, none));
}

/// A word that the lexicon does not know, that writes no number and holds no hyphen, is
/// pronounced as the rules say, where they have just one thing to say.
pub proof fn law_rules_come_second(
    g: G2P,
    input: Seq<char>,
    out: Seq<char>,
    tokens: Seq<Token>,
    k: int,
    ps: Seq<char>,
)
    requires
        g.outcome(input, Ok((out, tokens))),
        0 <= k < tokens.len(),
        outcome::marked_tokens(input)[k].phonemes is None,
        laws::reading::heard(g, tokens, k) is None,
        number::number_in(tokens[k].text) is None,
        !tokens[k].text.contains('-'),
        forall|answer: Option<Seq<char>>| #[trigger]
            g.rules_may_answer(tokens[k].text, tokens[k].tag, answer) ==> answer == Some(ps),
    ensures
        tokens[k].phonemes == Some(ps),
{
    laws::steps::law_word_goes_to_its_parts_or_the_rules(tokens[k].text);
    let said = tokens[k].phonemes->0;
    assert(tokens[k].phonemes is Some);
    assert(g.token_outcome(input, outcome::marked_tokens(input), tokens, k, Ok(said)));
    let ctx = sounds::context_of(tokens, k);
    let level = g.stress_for(tokens[k]);
    assert(g.word_outcome(input, tokens[k].text, tokens[k].tag, level, ctx, Ok(said)));
}

/// A single character that neither the lexicon nor the rules know, and that has a plain form,
/// is read as that.
pub proof fn law_accented_letter(
    g: G2P,
    input: Seq<char>,
    out: Seq<char>,
    tokens: Seq<Token>,
    k: int,
    c: char,
)
    requires
        g.outcome(input, Ok((out, tokens))),
        0 <= k < tokens.len(),
        tokens[k].text == seq![c],
        laws::reading::is_unknown(g, input, tokens, k),
        sounds::base_char(c) != c,
    ensures
        tokens[k].phonemes matches Some(ps) && laws::reading::may_read(
            g,
            seq![sounds::base_char(c)],
            ps,
        ),
{
    let word = tokens[k].text;
    let said = tokens[k].phonemes->0;
    assert(tokens[k].phonemes is Some);
    assert(g.token_outcome(input, outcome::marked_tokens(input), tokens, k, Ok(said)));
    let clean = word.filter(|x: char| x != ',');
    assert(clean == seq![c]) by {
        reveal(Seq::filter);
        assert(word.drop_last() =~= Seq::<char>::empty());
        assert(Seq::<char>::empty().filter(|x: char| x != ',') =~= Seq::<char>::empty());
        assert(Seq::<char>::empty().push(c) =~= seq![c]);
    }
    laws::numbers::law_other_words_write_no_number(word);
    laws::steps::law_word_goes_to_its_parts_or_the_rules(word);
    laws::steps::law_without_a_rule(word, g.unk@);
    let plain = seq![sounds::base_char(c)];
    assert(g.sub_outcome(input, plain, Ok(said)));
    let inner = choose|inner: Seq<Token>|
        said == #[trigger] outcome::spoken_text(inner) && g.outcome(plain, Ok((said, inner)));
    assert(g.outcome(plain, Ok((said, inner))));
}

} // verus!
