//! What holds of reading a text where tagger, rules and fallback leave no choice: the same
//! text is always read the same way, and reading a part is reading it alone.

use crate::fallback::FallbackError;
use crate::g2p::G2P;
use crate::laws;
use crate::lexicon::TokenContext;
use crate::links;
use crate::number;
use crate::outcome;
use crate::sounds;
use crate::steps;
use crate::stress::Stress;
use crate::text;
use crate::token::Token;
use crate::tokenize;
use vstd::prelude::*;

verus! {

/// Whether the tagger has at most one answer to every question.
pub open spec fn has_steady_tagger(g: G2P) -> bool {
    forall|words: Seq<Seq<char>>, a: Seq<Seq<char>>, b: Seq<Seq<char>>| #[trigger]
        g.may_tag(words, a) && #[trigger] g.may_tag(words, b) ==> a == b
}

/// Whether the rules have at most one answer to every question.
pub open spec fn has_steady_rules(g: G2P) -> bool {
    forall|word: Seq<char>, tag: Seq<char>, a: Option<Seq<char>>, b: Option<Seq<char>>| #[trigger]
        g.rules_may_answer(word, tag, a) && #[trigger] g.rules_may_answer(word, tag, b) ==> a == b
}

/// Whether the fallback, if there is one, has at most one answer to every question.
pub open spec fn has_steady_fallback(g: G2P) -> bool {
    forall|
        word: Seq<char>,
        a: Result<Seq<char>, FallbackError>,
        b: Result<Seq<char>, FallbackError>,
    | #[trigger]
        g.fallback_may_answer(word, a) && #[trigger] g.fallback_may_answer(word, b) ==> a == b
}

/// Whether tagger, rules and fallback each have at most one answer to every question.
pub open spec fn is_steady(g: G2P) -> bool {
    has_steady_tagger(g) && has_steady_rules(g) && has_steady_fallback(g)
}

/// A text has one outcome where tagger, rules and fallback each have at most one answer to
/// every question.
pub proof fn law_steady_reading(
    g: G2P,
    input: Seq<char>,
    a: Result<(Seq<char>, Seq<Token>), FallbackError>,
    b: Result<(Seq<char>, Seq<Token>), FallbackError>,
)
    requires
        is_steady(g),
        g.outcome(input, a),
        g.outcome(input, b),
    ensures
        a == b,
    decreases
        outcome::digit_rank(input),
        input.len(),
        outcome::accent_rank(input),
        7nat,
        0nat,
{
    let base = outcome::marked_tokens(input);
    match (a, b) {
        (Ok((_, ta)), Ok((_, tb))) => {
            lemma_same_tokens(g, input, ta, tb, 0);
            assert(ta =~= tb);
        },
        (Ok((_, ta)), Err(e)) => {
            lemma_no_mix(g, input, ta, e);
        },
        (Err(e), Ok((_, tb))) => {
            lemma_no_mix(g, input, tb, e);
        },
        (Err(ea), Err(eb)) => {
            let (ta, ka) = choose|tokens: Seq<Token>, k: int| #[trigger]
                g.is_tagged(base, tokens) && 0 <= k < base.len() && (
                #[trigger] base[k]).phonemes is None && g.reads_from(input, base, tokens, k + 1)
                    && g.token_outcome(input, base, tokens, k, Err(ea));
            let (tb, kb) = choose|tokens: Seq<Token>, k: int| #[trigger]
                g.is_tagged(base, tokens) && 0 <= k < base.len() && (
                #[trigger] base[k]).phonemes is None && g.reads_from(input, base, tokens, k + 1)
                    && g.token_outcome(input, base, tokens, k, Err(eb));
            lemma_one_failure(g, input, ta, tb, ka, kb, ea, eb);
        },
    }
}

/// Two failures are one.
proof fn lemma_one_failure(
    g: G2P,
    input: Seq<char>,
    ta: Seq<Token>,
    tb: Seq<Token>,
    ka: int,
    kb: int,
    ea: FallbackError,
    eb: FallbackError,
)
    requires
        is_steady(g),
        0 <= ka < outcome::marked_tokens(input).len(),
        0 <= kb < outcome::marked_tokens(input).len(),
        g.reads_from(input, outcome::marked_tokens(input), ta, ka + 1),
        g.reads_from(input, outcome::marked_tokens(input), tb, kb + 1),
        g.token_outcome(input, outcome::marked_tokens(input), ta, ka, Err(ea)),
        g.token_outcome(input, outcome::marked_tokens(input), tb, kb, Err(eb)),
    ensures
        ea == eb,
    decreases
        outcome::digit_rank(input),
        input.len(),
        outcome::accent_rank(input),
        6nat,
        outcome::marked_tokens(input).len() + 1,
{
    let base = outcome::marked_tokens(input);
    lemma_same_tags(g, base, ta, tb);
    let n = if ka < kb {
        kb + 1
    } else {
        ka + 1
    };
    lemma_same_tokens(g, input, ta, tb, n);
    if ka < kb {
        assert(g.token_outcome(input, base, ta, kb, Ok(ta[kb].phonemes->0)));
        lemma_token_steady(g, input, ta, tb, kb, Ok(ta[kb].phonemes->0), Err(eb));
    } else if kb < ka {
        assert(g.token_outcome(input, base, tb, ka, Ok(tb[ka].phonemes->0)));
        lemma_token_steady(g, input, ta, tb, ka, Err(ea), Ok(tb[ka].phonemes->0));
    } else {
        lemma_token_steady(g, input, ta, tb, ka, Err(ea), Err(eb));
    }
}

/// What can be read cannot fail.
proof fn lemma_no_mix(g: G2P, input: Seq<char>, ta: Seq<Token>, e: FallbackError)
    requires
        is_steady(g),
        g.reads_from(input, outcome::marked_tokens(input), ta, 0),
    ensures
        !g.outcome(input, Err(e)),
    decreases
        outcome::digit_rank(input),
        input.len(),
        outcome::accent_rank(input),
        6nat,
        outcome::marked_tokens(input).len() + 1,
{
    let base = outcome::marked_tokens(input);
    if g.outcome(input, Err(e)) {
        let (tb, k) = choose|tokens: Seq<Token>, k: int| #[trigger]
            g.is_tagged(base, tokens) && 0 <= k < base.len() && (
            #[trigger] base[k]).phonemes is None && g.reads_from(input, base, tokens, k + 1)
                && g.token_outcome(input, base, tokens, k, Err(e));
        lemma_same_tags(g, base, ta, tb);
        assert(g.reads_from(input, base, ta, k + 1));
        lemma_same_tokens(g, input, ta, tb, k + 1);
        assert(g.token_outcome(input, base, ta, k, Ok(ta[k].phonemes->0)));
        lemma_token_steady(g, input, ta, tb, k, Ok(ta[k].phonemes->0), Err(e));
    }
}

/// With one way to tag them, tokens can differ in their phonemes only.
proof fn lemma_same_tags(g: G2P, base: Seq<Token>, a: Seq<Token>, b: Seq<Token>)
    requires
        is_steady(g),
        g.is_tagged(base, a),
        g.is_tagged(base, b),
    ensures
        a.len() == base.len(),
        outcome::same_but_phonemes(a, b),
{
    let ta = choose|tags: Seq<Seq<char>>| #[trigger]
        g.may_tag(outcome::texts_of(base), tags) && outcome::same_but_phonemes(
            outcome::with_tags(base, tags),
            a,
        );
    let tb = choose|tags: Seq<Seq<char>>| #[trigger]
        g.may_tag(outcome::texts_of(base), tags) && outcome::same_but_phonemes(
            outcome::with_tags(base, tags),
            b,
        );
    assert(ta == tb);
    assert forall|k: int| 0 <= k < a.len() implies (#[trigger] b[k]) == (Token {
        phonemes: b[k].phonemes,
        ..a[k]
    }) by {
        assert(a[k] == (Token { phonemes: a[k].phonemes, ..outcome::with_tags(base, ta)[k] }));
    }
}

/// The tokens from `n` on are read one way.
proof fn lemma_same_tokens(g: G2P, input: Seq<char>, a: Seq<Token>, b: Seq<Token>, n: int)
    requires
        is_steady(g),
        0 <= n,
        g.is_tagged(outcome::marked_tokens(input), a),
        g.is_tagged(outcome::marked_tokens(input), b),
        g.reads_from(input, outcome::marked_tokens(input), a, n),
        g.reads_from(input, outcome::marked_tokens(input), b, n),
    ensures
        a.len() == b.len(),
        a.len() == outcome::marked_tokens(input).len(),
        forall|k: int| n <= k < a.len() ==> #[trigger] a[k] == b[k],
    decreases
        outcome::digit_rank(input),
        input.len(),
        outcome::accent_rank(input),
        6nat,
        if n < outcome::marked_tokens(input).len() {
            (outcome::marked_tokens(input).len() - n) as nat
        } else {
            0
        },
{
    let base = outcome::marked_tokens(input);
    lemma_same_tags(g, base, a, b);
    if n < base.len() {
        assert(g.reads_from(input, base, a, n + 1));
        assert(g.reads_from(input, base, b, n + 1));
        lemma_same_tokens(g, input, a, b, n + 1);
        assert(a[n].phonemes is Some && b[n].phonemes is Some);
        lemma_token_steady(
            g,
            input,
            a,
            b,
            n,
            Ok(a[n].phonemes->0),
            Ok(b[n].phonemes->0),
        );
        assert(a[n].phonemes == b[n].phonemes);
        assert(b[n] == (Token { phonemes: b[n].phonemes, ..a[n] }));
    }
}

proof fn lemma_token_steady(
    g: G2P,
    input: Seq<char>,
    a: Seq<Token>,
    b: Seq<Token>,
    k: int,
    ra: Result<Seq<char>, FallbackError>,
    rb: Result<Seq<char>, FallbackError>,
)
    requires
        is_steady(g),
        0 <= k < a.len(),
        outcome::same_but_phonemes(a, b),
        k + 1 < a.len() ==> a[k + 1] == b[k + 1],
        g.token_outcome(input, outcome::marked_tokens(input), a, k, ra),
        g.token_outcome(input, outcome::marked_tokens(input), b, k, rb),
    ensures
        ra == rb,
    decreases
        outcome::digit_rank(input),
        input.len(),
        outcome::accent_rank(input),
        5nat,
        0nat,
{
    let base = outcome::marked_tokens(input);
    if base[k].phonemes is None {
        assert(b[k] == (Token { phonemes: b[k].phonemes, ..a[k] }));
        let ctx = sounds::context_of(a, k);
        assert(ctx == sounds::context_of(b, k));
        lemma_word_steady(
            g,
            input,
            a[k].text,
            a[k].tag,
            g.stress_for(a[k]),
            ctx,
            ra,
            rb,
        );
    }
}

proof fn lemma_word_steady(
    g: G2P,
    input: Seq<char>,
    word: Seq<char>,
    tag: Seq<char>,
    level: Option<Stress>,
    ctx: TokenContext,
    ra: Result<Seq<char>, FallbackError>,
    rb: Result<Seq<char>, FallbackError>,
)
    requires
        is_steady(g),
        g.word_outcome(input, word, tag, level, ctx, ra),
        g.word_outcome(input, word, tag, level, ctx, rb),
    ensures
        ra == rb,
    decreases
        outcome::digit_rank(input),
        input.len(),
        outcome::accent_rank(input),
        4nat,
        0nat,
{
    let first = steps::after_lexicon(word, g.lexicon_answer(word, tag, level, ctx));
    if first is AskRules {
        let a = lemma_ruled(g, input, word, tag, level, ctx, ra);
        let b = lemma_ruled(g, input, word, tag, level, ctx, rb);
        assert(a == b);
        let second = steps::after_rules(word, g.unk@, a);
        if second is AskFallback {
            let x = lemma_replied(g, input, word, ra);
            let y = lemma_replied(g, input, word, rb);
            assert(x == y);
            lemma_move_steady(g, input, steps::after_fallback(word, x), ra, rb);
        } else {
            lemma_move_steady(g, input, second, ra, rb);
        }
    } else {
        lemma_move_steady(g, input, first, ra, rb);
    }
}

/// What becomes of a word once the rules have answered.
spec fn is_ruled(
    g: G2P,
    input: Seq<char>,
    word: Seq<char>,
    answer: Option<Seq<char>>,
    r: Result<Seq<char>, FallbackError>,
) -> bool {
    let second = steps::after_rules(word, g.unk@, answer);
    if second is AskFallback {
        is_replied(g, input, word, r)
    } else {
        g.move_outcome(input, second, r)
    }
}

/// What becomes of a word once the fallback has answered.
spec fn is_replied(
    g: G2P,
    input: Seq<char>,
    word: Seq<char>,
    r: Result<Seq<char>, FallbackError>,
) -> bool {
    exists|reply: Option<Result<Seq<char>, FallbackError>>| #[trigger]
        g.may_reply(word, reply) && g.move_outcome(input, steps::after_fallback(word, reply), r)
}

proof fn lemma_ruled(
    g: G2P,
    input: Seq<char>,
    word: Seq<char>,
    tag: Seq<char>,
    level: Option<Stress>,
    ctx: TokenContext,
    r: Result<Seq<char>, FallbackError>,
) -> (answer: Option<Seq<char>>)
    requires
        g.word_outcome(input, word, tag, level, ctx, r),
        steps::after_lexicon(word, g.lexicon_answer(word, tag, level, ctx)) is AskRules,
    ensures
        g.rules_may_answer(word, tag, answer),
        is_ruled(g, input, word, answer, r),
{
    choose|answer: Option<Seq<char>>| #[trigger]
        g.rules_may_answer(word, tag, answer) && is_ruled(g, input, word, answer, r)
}

proof fn lemma_replied(
    g: G2P,
    input: Seq<char>,
    word: Seq<char>,
    r: Result<Seq<char>, FallbackError>,
) -> (reply: Option<Result<Seq<char>, FallbackError>>)
    requires
        is_replied(g, input, word, r),
    ensures
        g.may_reply(word, reply),
        g.move_outcome(input, steps::after_fallback(word, reply), r),
{
    choose|reply: Option<Result<Seq<char>, FallbackError>>| #[trigger]
        g.may_reply(word, reply) && g.move_outcome(input, steps::after_fallback(word, reply), r)
}

proof fn lemma_move_steady(
    g: G2P,
    input: Seq<char>,
    step: steps::Move,
    ra: Result<Seq<char>, FallbackError>,
    rb: Result<Seq<char>, FallbackError>,
)
    requires
        is_steady(g),
        g.move_outcome(input, step, ra),
        g.move_outcome(input, step, rb),
    ensures
        ra == rb,
    decreases
        outcome::digit_rank(input),
        input.len(),
        outcome::accent_rank(input),
        3nat,
        0nat,
{
    match step {
        steps::Move::ReadParts(parts) => {
            lemma_list_steady(g, input, parts, ra, rb);
        },
        steps::Move::ReadInstead(s) => {
            lemma_sub_steady(g, input, s, ra, rb);
        },
        _ => {},
    }
}

proof fn lemma_list_steady(
    g: G2P,
    input: Seq<char>,
    items: Seq<Seq<char>>,
    ra: Result<Seq<char>, FallbackError>,
    rb: Result<Seq<char>, FallbackError>,
)
    requires
        is_steady(g),
        g.list_outcome(input, items, ra),
        g.list_outcome(input, items, rb),
    ensures
        ra == rb,
    decreases
        outcome::digit_rank(input),
        input.len(),
        outcome::accent_rank(input),
        2nat,
        0nat,
{
    let a = lemma_list_parts(g, input, items, ra);
    let b = lemma_list_parts(g, input, items, rb);
    assert forall|j: int| 0 <= j < a.len() && j < b.len() implies #[trigger] a[j] == b[j] by {
        assert(g.sub_outcome(input, items[j], Ok(a[j])));
        assert(g.sub_outcome(input, items[j], Ok(b[j])));
        lemma_sub_steady(g, input, items[j], Ok(a[j]), Ok(b[j]));
    }
    if a.len() < b.len() {
        let n = a.len() as int;
        assert(g.sub_outcome(input, items[n], Ok(b[n])));
        lemma_sub_steady(g, input, items[n], Err(ra->Err_0), Ok(b[n]));
    } else if b.len() < a.len() {
        let n = b.len() as int;
        assert(g.sub_outcome(input, items[n], Ok(a[n])));
        lemma_sub_steady(g, input, items[n], Ok(a[n]), Err(rb->Err_0));
    } else {
        assert(a =~= b);
        if a.len() < items.len() {
            let n = a.len() as int;
            lemma_sub_steady(g, input, items[n], Err(ra->Err_0), Err(rb->Err_0));
        }
    }
}

/// The readings of a list's first texts, as far as they go.
proof fn lemma_list_parts(
    g: G2P,
    input: Seq<char>,
    items: Seq<Seq<char>>,
    r: Result<Seq<char>, FallbackError>,
) -> (subs: Seq<Seq<char>>)
    requires
        g.list_outcome(input, items, r),
    ensures
        subs.len() <= items.len(),
        forall|j: int|
            0 <= j < subs.len() ==> g.sub_outcome(input, items[j], Ok(#[trigger] subs[j])),
        r matches Ok(ps) ==> subs.len() == items.len() && ps == text::joined(subs, " "@),
        r matches Err(e) ==> subs.len() < items.len() && g.sub_outcome(
            input,
            items[subs.len() as int],
            Err(e),
        ),
{
    match r {
        Ok(ps) => choose|subs: Seq<Seq<char>>|
            subs.len() == items.len() && ps == #[trigger] text::joined(subs, " "@) && g.list_reads(
                input,
                items,
                subs,
            ),
        Err(e) => choose|subs: Seq<Seq<char>>| #[trigger]
            outcome::is_shorter(subs, items) && g.list_reads(input, items, subs) && g.sub_outcome(
                input,
                items[subs.len() as int],
                Err(e),
            ),
    }
}

proof fn lemma_sub_steady(
    g: G2P,
    input: Seq<char>,
    sub: Seq<char>,
    ra: Result<Seq<char>, FallbackError>,
    rb: Result<Seq<char>, FallbackError>,
)
    requires
        is_steady(g),
        g.sub_outcome(input, sub, ra),
        g.sub_outcome(input, sub, rb),
    ensures
        ra == rb,
    decreases
        outcome::digit_rank(input),
        input.len(),
        outcome::accent_rank(input),
        0nat,
        0nat,
{
    let a = lemma_sub_whole(g, input, sub, ra);
    let b = lemma_sub_whole(g, input, sub, rb);
    law_steady_reading(g, sub, a, b);
}

/// The whole outcome of a text that was read as part of another.
proof fn lemma_sub_whole(
    g: G2P,
    input: Seq<char>,
    sub: Seq<char>,
    r: Result<Seq<char>, FallbackError>,
) -> (whole: Result<(Seq<char>, Seq<Token>), FallbackError>)
    requires
        g.sub_outcome(input, sub, r),
    ensures
        g.outcome(sub, whole),
        match (whole, r) {
            (Ok((out, _)), Ok(ps)) => out == ps,
            (Err(e), Err(f)) => e == f,
            _ => false,
        },
{
    match r {
        Ok(out) => {
            let tokens = choose|tokens: Seq<Token>|
                out == #[trigger] outcome::spoken_text(tokens) && g.outcome(
                    sub,
                    Ok((out, tokens)),
                );
            Ok((out, tokens))
        },
        Err(e) => Err(e),
    }
}

/// Whether `readings` are what the given texts may be read as, one for each.
pub open spec fn are_readings(g: G2P, texts: Seq<Seq<char>>, readings: Seq<Seq<char>>) -> bool {
    &&& readings.len() == texts.len()
    &&& forall|i: int|
        0 <= i < readings.len() ==> laws::reading::may_read(g, texts[i], #[trigger] readings[i])
}

/// What a text may be read as is one thing.
proof fn lemma_one_reading(g: G2P, input: Seq<char>, a: Seq<char>, b: Seq<char>)
    requires
        is_steady(g),
        laws::reading::may_read(g, input, a),
        laws::reading::may_read(g, input, b),
    ensures
        a == b,
{
    let ta = choose|inner: Seq<Token>| #[trigger] g.outcome(input, Ok((a, inner)));
    let tb = choose|inner: Seq<Token>| #[trigger] g.outcome(input, Ok((b, inner)));
    law_steady_reading(g, input, Ok((a, ta)), Ok((b, tb)));
}

/// A pronunciation by parts is made of the parts' own readings.
proof fn lemma_parts_determined(
    g: G2P,
    parts: Seq<Seq<char>>,
    phonemes: Option<Seq<char>>,
    readings: Seq<Seq<char>>,
)
    requires
        is_steady(g),
        laws::reading::is_read_by_parts(g, parts, phonemes),
        are_readings(g, parts, readings),
    ensures
        phonemes == Some(text::joined(readings, " "@)),
{
    let subs = choose|subs: Seq<Seq<char>>|
        {
            &&& subs.len() == parts.len()
            &&& phonemes == Some(#[trigger] text::joined(subs, " "@))
            &&& forall|i: int|
                0 <= i < subs.len() ==> laws::reading::may_read(g, parts[i], #[trigger] subs[i])
        };
    assert forall|i: int| 0 <= i < subs.len() implies #[trigger] subs[i] == readings[i] by {
        lemma_one_reading(g, parts[i], subs[i], readings[i]);
    }
    assert(subs =~= readings);
}

/// A word that the lexicon does not know and that writes a number, sign included, is
/// pronounced just as the number's words are when they are read alone.
pub proof fn law_number_sounds_like_its_words(
    g: G2P,
    input: Seq<char>,
    out: Seq<char>,
    tokens: Seq<Token>,
    k: int,
    ps: Seq<char>,
)
    requires
        is_steady(g),
        g.outcome(input, Ok((out, tokens))),
        0 <= k < tokens.len(),
        outcome::marked_tokens(input)[k].phonemes is None,
        laws::reading::heard(g, tokens, k) is None,
        number::number_in(tokens[k].text) is Some,
        number::spoken(tokens[k].text) != tokens[k].text,
        laws::reading::may_read(g, number::spoken(tokens[k].text), ps),
    ensures
        tokens[k].phonemes == Some(ps),
{
    laws::reading::law_numbers_are_read_as_words(g, input, out, tokens, k);
    lemma_one_reading(g, number::spoken(tokens[k].text), tokens[k].phonemes->0, ps);
}

/// A hyphenated word that the lexicon does not know and that writes no number is pronounced
/// as its parts are when they are read alone, with spaces between.
pub proof fn law_hyphenated_word_sounds_like_its_parts(
    g: G2P,
    input: Seq<char>,
    out: Seq<char>,
    tokens: Seq<Token>,
    k: int,
    readings: Seq<Seq<char>>,
)
    requires
        is_steady(g),
        g.outcome(input, Ok((out, tokens))),
        0 <= k < tokens.len(),
        outcome::marked_tokens(input)[k].phonemes is None,
        laws::reading::heard(g, tokens, k) is None,
        number::number_in(tokens[k].text) is None,
        steps::is_hyphenated(tokens[k].text),
        are_readings(g, steps::hyphen_parts(tokens[k].text), readings),
    ensures
        tokens[k].phonemes == Some(text::joined(readings, " "@)),
{
    laws::reading::law_hyphenated_words_are_read_by_parts(g, input, out, tokens, k);
    lemma_parts_determined(
        g,
        steps::hyphen_parts(tokens[k].text),
        tokens[k].phonemes,
        readings,
    );
}

/// Without a fallback an unknown word of several characters that is neither hyphenated nor a
/// number is spelt: it is pronounced as its characters are when each is read alone, with
/// spaces between.
pub proof fn law_unknown_word_sounds_like_its_letters(
    g: G2P,
    input: Seq<char>,
    out: Seq<char>,
    tokens: Seq<Token>,
    k: int,
    readings: Seq<Seq<char>>,
)
    requires
        is_steady(g),
        !g.has_fallback(),
        g.outcome(input, Ok((out, tokens))),
        0 <= k < tokens.len(),
        tokens[k].text.len() > 1,
        !steps::is_hyphenated(tokens[k].text),
        number::number_in(tokens[k].text) is None,
        laws::reading::is_unknown(g, input, tokens, k),
        are_readings(g, steps::letters_of(tokens[k].text), readings),
    ensures
        tokens[k].phonemes == Some(text::joined(readings, " "@)),
{
    laws::reading::law_unknown_words(g, input, out, tokens, k);
    lemma_parts_determined(g, steps::letters_of(tokens[k].text), tokens[k].phonemes, readings);
}

/// A text without links that is a single token.
pub open spec fn is_lone(w: Seq<char>) -> bool {
    &&& laws::links::no_link_before(w, w.len() as int)
    &&& tokenize::token_spans(w) == seq![(0int, w.len() as int)]
}

/// The one token of a lone word.
proof fn lemma_lone_token(g: G2P, w: Seq<char>, out: Seq<char>, tokens: Seq<Token>)
    requires
        is_lone(w),
        g.outcome(w, Ok((out, tokens))),
    ensures
        tokens.len() == 1,
        tokens[0].text == w,
        tokens[0].phonemes is Some,
        out == tokens[0].phonemes->0 + " "@,
        outcome::marked_tokens(w)[0].phonemes is None,
{
    laws::links::law_text_without_links(w);
    laws::reading::law_every_token_is_pronounced(g, w, out, tokens);
    assert(links::markers_of(w).len() == 0);
    assert(outcome::marked_tokens(w) == tokenize::raw_tokens(w));
    assert(w.subrange(0, w.len() as int) =~= w);
    assert(tokens =~= seq![tokens[0]]);
    laws::reading::lemma_one_spoken(tokens[0]);
}

/// Reading a lone word that the lexicon does not know and that writes a number is reading the
/// number's words.
pub proof fn law_lone_number(
    g: G2P,
    w: Seq<char>,
    out: Seq<char>,
    tokens: Seq<Token>,
    ps: Seq<char>,
    inner: Seq<Token>,
)
    requires
        is_steady(g),
        is_lone(w),
        g.outcome(w, Ok((out, tokens))),
        laws::reading::heard(g, tokens, 0) is None,
        number::number_in(w) is Some,
        number::spoken(w) != w,
        g.outcome(number::spoken(w), Ok((ps, inner))),
    ensures
        tokens.len() == 1,
        tokens[0].phonemes == Some(ps),
        out == ps + " "@,
{
    lemma_lone_token(g, w, out, tokens);
    assert(laws::reading::may_read(g, number::spoken(w), ps));
    law_number_sounds_like_its_words(g, w, out, tokens, 0, ps);
}

/// Without a fallback, reading a lone unknown word of several characters that is neither
/// hyphenated nor a number is reading its characters, one by one, with spaces between.
pub proof fn law_lone_unknown_word(
    g: G2P,
    w: Seq<char>,
    out: Seq<char>,
    tokens: Seq<Token>,
    readings: Seq<Seq<char>>,
)
    requires
        is_steady(g),
        !g.has_fallback(),
        is_lone(w),
        w.len() > 1,
        !steps::is_hyphenated(w),
        number::number_in(w) is None,
        g.outcome(w, Ok((out, tokens))),
        laws::reading::is_unknown(g, w, tokens, 0),
        are_readings(g, steps::letters_of(w), readings),
    ensures
        tokens.len() == 1,
        tokens[0].phonemes == Some(text::joined(readings, " "@)),
        out == text::joined(readings, " "@) + " "@,
{
    lemma_lone_token(g, w, out, tokens);
    law_unknown_word_sounds_like_its_letters(g, w, out, tokens, 0, readings);
}

/// With a fallback, a lone unknown word of several characters that is neither hyphenated nor
/// a number, if it is read at all, is read as the fallback pronounces it.
pub proof fn law_lone_word_for_the_fallback(
    g: G2P,
    w: Seq<char>,
    out: Seq<char>,
    tokens: Seq<Token>,
    answer: Result<Seq<char>, FallbackError>,
)
    requires
        is_steady(g),
        is_lone(w),
        w.len() > 1,
        !steps::is_hyphenated(w),
        number::number_in(w) is None,
        g.outcome(w, Ok((out, tokens))),
        laws::reading::is_unknown(g, w, tokens, 0),
        g.fallback_may_answer(w, answer),
    ensures
        tokens.len() == 1,
        answer == Ok::<Seq<char>, FallbackError>(tokens[0].phonemes->0),
        out == answer->Ok_0 + " "@,
{
    lemma_lone_token(g, w, out, tokens);
    laws::reading::law_unknown_words(g, w, out, tokens, 0);
}

} // verus!
