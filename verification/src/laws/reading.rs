//! What holds of reading a text.

use crate::fallback::FallbackError;
use crate::g2p::G2P;
use crate::laws;
use crate::lexicon;
use crate::lexicon::{PhonemeEntry, TokenContext};
use crate::links;
use crate::marks;
use crate::number;
use crate::outcome;
use crate::sounds;
use crate::steps;
use crate::stress;
use crate::stress::Stress;
use crate::text;
use crate::token::Token;
use crate::tokenize;
use vstd::prelude::*;

verus! {

/// Whether the fallback may fail with `e` on some word.
pub open spec fn fallback_may_fail(g: G2P, e: FallbackError) -> bool {
    exists|word: Seq<char>| #[trigger] g.fallback_may_answer(word, Err(e))
}

/// Reading fails only if the fallback fails, and with the fallback's own error.
pub proof fn law_only_the_fallback_fails(g: G2P, input: Seq<char>, e: FallbackError)
    requires
        g.outcome(input, Err(e)),
    ensures
        fallback_may_fail(g, e),
    decreases
        outcome::digit_rank(input),
        input.len(),
        outcome::accent_rank(input),
        7nat,
{
    let base = outcome::marked_tokens(input);
    let (tokens, k) = choose|tokens: Seq<Token>, k: int| #[trigger]
        g.is_tagged(base, tokens) && 0 <= k < base.len() && (#[trigger] base[k]).phonemes is None
            && g.reads_from(input, base, tokens, k + 1) && g.token_outcome(
            input,
            base,
            tokens,
            k,
            Err(e),
        );
    lemma_word_failure(
        g,
        input,
        tokens[k].text,
        tokens[k].tag,
        g.stress_for(tokens[k]),
        sounds::context_of(tokens, k),
        e,
    );
}

proof fn lemma_word_failure(
    g: G2P,
    input: Seq<char>,
    word: Seq<char>,
    tag: Seq<char>,
    level: Option<Stress>,
    ctx: TokenContext,
    e: FallbackError,
)
    requires
        g.word_outcome(input, word, tag, level, ctx, Err(e)),
    ensures
        fallback_may_fail(g, e),
    decreases
        outcome::digit_rank(input),
        input.len(),
        outcome::accent_rank(input),
        4nat,
{
    let first = steps::after_lexicon(word, g.lexicon_answer(word, tag, level, ctx));
    if first is AskRules {
        let answer = choose|answer: Option<Seq<char>>| #[trigger]
            g.rules_may_answer(word, tag, answer) && {
                let second = steps::after_rules(word, g.unk@, answer);
                if second is AskFallback {
                    exists|reply: Option<Result<Seq<char>, FallbackError>>| #[trigger]
                        g.may_reply(word, reply) && g.move_outcome(
                            input,
                            steps::after_fallback(word, reply),
                            Err(e),
                        )
                } else {
                    g.move_outcome(input, second, Err(e))
                }
            };
        let second = steps::after_rules(word, g.unk@, answer);
        if second is AskFallback {
            let reply = choose|reply: Option<Result<Seq<char>, FallbackError>>| #[trigger]
                g.may_reply(word, reply) && g.move_outcome(
                    input,
                    steps::after_fallback(word, reply),
                    Err(e),
                );
            if reply matches Some(Err(_)) {
                assert(g.fallback_may_answer(word, Err(e)));
            } else {
                lemma_move_failure(g, input, steps::after_fallback(word, reply), e);
            }
        } else {
            lemma_move_failure(g, input, second, e);
        }
    } else {
        lemma_move_failure(g, input, first, e);
    }
}

proof fn lemma_move_failure(g: G2P, input: Seq<char>, step: steps::Move, e: FallbackError)
    requires
        g.move_outcome(input, step, Err(e)),
        !(step is Fail),
    ensures
        fallback_may_fail(g, e),
    decreases
        outcome::digit_rank(input),
        input.len(),
        outcome::accent_rank(input),
        3nat,
{
    match step {
        steps::Move::ReadParts(parts) => {
            let subs = choose|subs: Seq<Seq<char>>| #[trigger]
                outcome::is_shorter(subs, parts) && g.list_reads(input, parts, subs)
                    && g.sub_outcome(input, parts[subs.len() as int], Err(e));
            law_only_the_fallback_fails(g, parts[subs.len() as int], e);
        },
        steps::Move::ReadInstead(s) => {
            law_only_the_fallback_fails(g, s, e);
        },
        _ => {},
    }
}

/// Without a fallback reading never fails.
pub proof fn law_without_fallback_nothing_fails(g: G2P, input: Seq<char>, e: FallbackError)
    requires
        !g.has_fallback(),
    ensures
        !g.outcome(input, Err(e)),
{
    if g.outcome(input, Err(e)) {
        law_only_the_fallback_fails(g, input, e);
    }
}

/// What comes back are the tokens of the text without its markup, each with a pronunciation,
/// and the output is those pronunciations one behind the other, each with the white space of
/// its token.
pub proof fn law_every_token_is_pronounced(
    g: G2P,
    input: Seq<char>,
    out: Seq<char>,
    tokens: Seq<Token>,
)
    requires
        g.outcome(input, Ok((out, tokens))),
    ensures
        tokens.len() == tokenize::raw_tokens(links::plain_text(input)).len(),
        forall|k: int|
            0 <= k < tokens.len() ==> (#[trigger] tokens[k]).phonemes is Some && tokens[k].text
                == tokenize::raw_tokens(links::plain_text(input))[k].text && tokens[k].whitespace
                == " "@,
        out == outcome::spoken_text(tokens),
{
    let plain = links::plain_text(input);
    let base = outcome::marked_tokens(input);
    marks::lemma_mark_keeps_text(
        tokenize::raw_tokens(plain),
        outcome::byte_ranges(plain),
        links::markers_of(input),
    );
    lemma_tagged(g, base, tokens);
}

/// Tagging changes nothing but tags and phonemes.
proof fn lemma_tagged(g: G2P, base: Seq<Token>, tokens: Seq<Token>)
    requires
        g.is_tagged(base, tokens),
    ensures
        tokens.len() == base.len(),
        forall|k: int|
            0 <= k < tokens.len() ==> (#[trigger] tokens[k]) == (Token {
                tag: tokens[k].tag,
                phonemes: tokens[k].phonemes,
                ..base[k]
            }),
{
}

/// Whether two features ask for the same kind of thing.
pub open spec fn same_kind(a: links::Feature, b: links::Feature) -> bool {
    ||| a is Stress && b is Stress
    ||| a is Phonemes && b is Phonemes
    ||| a is NumFlags && b is NumFlags
}

/// Whether a token has what a feature asks for.
pub open spec fn has_feature(t: Token, f: links::Feature, head: bool) -> bool {
    match f {
        links::Feature::Stress(s) => t.stress == Some(s),
        links::Feature::Phonemes(p) => t.phonemes == Some(
            if head {
                p
            } else {
                Seq::empty()
            },
        ),
        links::Feature::NumFlags(flags) => t.num_flags == flags,
    }
}

proof fn lemma_marked(
    tokens: Seq<Token>,
    ranges: Seq<(int, int)>,
    markers: Seq<links::Marker>,
    j: int,
    k: int,
)
    requires
        0 <= j < markers.len(),
        0 <= k < tokens.len(),
        marks::covers(markers[j], ranges[k]),
        forall|l: int|
            j < l < markers.len() && marks::covers(#[trigger] markers[l], ranges[k]) ==> !same_kind(
                markers[j].feature,
                markers[l].feature,
            ),
    ensures
        has_feature(
            marks::mark_all(tokens, ranges, markers)[k],
            markers[j].feature,
            marks::is_head(markers[j], ranges, k),
        ),
    decreases markers.len(),
{
    let rest = markers.drop_last();
    marks::lemma_mark_keeps_text(tokens, ranges, rest);
    if j < markers.len() - 1 {
        assert(rest[j] == markers[j]);
        assert forall|l: int|
            j < l < rest.len() && marks::covers(#[trigger] rest[l], ranges[k]) implies !same_kind(
            rest[j].feature,
            rest[l].feature,
        ) by {
            assert(rest[l] == markers[l]);
        }
        lemma_marked(tokens, ranges, rest, j, k);
        assert(markers.last() == markers[markers.len() - 1]);
    }
}

/// What a link asks for reaches every token that it marks: a pronunciation is that of the
/// first of them and leaves the others silent, and a stress level counts before that of the
/// token's casing.
pub proof fn law_links_reach_their_tokens(
    g: G2P,
    input: Seq<char>,
    out: Seq<char>,
    tokens: Seq<Token>,
    j: int,
    k: int,
)
    requires
        g.outcome(input, Ok((out, tokens))),
        0 <= j < links::markers_of(input).len(),
        0 <= k < tokens.len(),
        ({
            let range = outcome::byte_ranges(links::plain_text(input))[k];
            range.0 < range.1 && marks::covers(links::markers_of(input)[j], range)
        }),
    ensures
        ({
            let m = links::markers_of(input)[j];
            let ranges = outcome::byte_ranges(links::plain_text(input));
            &&& has_feature(tokens[k], m.feature, marks::is_head(m, ranges, k))
            &&& m.feature matches links::Feature::Stress(s) ==> g.stress_for(tokens[k]) == Some(s)
        }),
{
    let plain = links::plain_text(input);
    let base = outcome::marked_tokens(input);
    let ranges = outcome::byte_ranges(plain);
    let markers = links::markers_of(input);
    let m = markers[j];
    law_every_token_is_pronounced(g, input, out, tokens);
    marks::lemma_mark_keeps_text(tokenize::raw_tokens(plain), ranges, markers);
    lemma_tagged(g, base, tokens);
    laws::links::law_markers_lie_in_the_text(input);
    assert forall|l: int|
        j < l < markers.len() && marks::covers(#[trigger] markers[l], ranges[k]) implies !same_kind(
        markers[j].feature,
        markers[l].feature,
    ) by {
        assert(markers[j].end <= markers[l].start);
    }
    lemma_marked(tokenize::raw_tokens(plain), ranges, markers, j, k);
    if m.feature is Phonemes {
        assert(g.token_outcome(input, base, tokens, k, Ok(tokens[k].phonemes->0)));
    }
}

/// How a token without a pronunciation from markup gets its own.
proof fn lemma_token_read(
    g: G2P,
    input: Seq<char>,
    out: Seq<char>,
    tokens: Seq<Token>,
    k: int,
)
    requires
        g.outcome(input, Ok((out, tokens))),
        0 <= k < tokens.len(),
        outcome::marked_tokens(input)[k].phonemes is None,
    ensures
        tokens[k].phonemes is Some,
        g.word_outcome(
            input,
            tokens[k].text,
            tokens[k].tag,
            g.stress_for(tokens[k]),
            sounds::context_of(tokens, k),
            Ok(tokens[k].phonemes->0),
        ),
{
    let base = outcome::marked_tokens(input);
    assert(g.token_outcome(input, base, tokens, k, Ok(tokens[k].phonemes->0)));
}

/// What the lexicon has for the `k`th of a text's tokens.
pub open spec fn heard(g: G2P, tokens: Seq<Token>, k: int) -> Option<Seq<char>> {
    g.lexicon_answer(
        tokens[k].text,
        tokens[k].tag,
        g.stress_for(tokens[k]),
        sounds::context_of(tokens, k),
    )
}

/// Whether neither the lexicon nor the rules have anything for the `k`th of a text's tokens,
/// and markup gives it no pronunciation.
pub open spec fn is_unknown(g: G2P, input: Seq<char>, tokens: Seq<Token>, k: int) -> bool {
    &&& outcome::marked_tokens(input)[k].phonemes is None
    &&& heard(g, tokens, k) is None
    &&& forall|answer: Option<Seq<char>>| #[trigger]
        g.rules_may_answer(tokens[k].text, tokens[k].tag, answer) ==> answer is None
}

/// A word that the lexicon knows is pronounced as the lexicon says.
pub proof fn law_lexicon_comes_first(
    g: G2P,
    input: Seq<char>,
    out: Seq<char>,
    tokens: Seq<Token>,
    k: int,
)
    requires
        g.outcome(input, Ok((out, tokens))),
        0 <= k < tokens.len(),
        outcome::marked_tokens(input)[k].phonemes is None,
        heard(g, tokens, k) is Some,
    ensures
        tokens[k].phonemes == heard(g, tokens, k),
{
    lemma_token_read(g, input, out, tokens, k);
}

proof fn lemma_symbol_writes_no_number(c: char)
    requires
        !number::is_digit(c),
    ensures
        number::number_in(seq![c]) is None,
        !steps::is_hyphenated(seq![c]),
{
    reveal(Seq::filter);
    let none = Seq::<char>::empty();
    assert(seq![c] =~= none.push(c));
    text::lemma_without_push(none, ',', c);
    assert(text::without(none, ',') =~= none);
    let clean = text::without(seq![c], ',');
    assert(clean.len() <= 1);
    if clean.len() == 1 {
        assert(clean[0] == c);
        assert(clean.skip(1) =~= none);
        assert(!number::is_digit(clean[0]));
        assert(!number::is_signed(clean) ==> !number::all_digits(clean));
    }
    assert(number::integer(clean) is None);
    if seq![c].contains('-') {
        assert(seq![c][0] == c);
        text::lemma_utf8_len_chars(seq![c]);
    }
}

/// Of the symbols that nothing is known of, the marks that guide the intonation are handed
/// on as they are, other ASCII punctuation and an ellipsis become a pause, and a symbol that
/// is no punctuation and has no plain form becomes the mark of the unknown.
pub proof fn law_unknown_symbols(
    g: G2P,
    input: Seq<char>,
    out: Seq<char>,
    tokens: Seq<Token>,
    k: int,
    c: char,
)
    requires
        g.outcome(input, Ok((out, tokens))),
        0 <= k < tokens.len(),
        tokens[k].text == seq![c],
        !number::is_digit(c),
        is_unknown(g, input, tokens, k),
    ensures
        sounds::is_kept(c) ==> tokens[k].phonemes == Some(seq![c]),
        (sounds::is_ascii_punctuation(c) || c == '…') && !sounds::is_kept(c)
            ==> tokens[k].phonemes == Some(" "@),
        !sounds::is_ascii_punctuation(c) && c != '…' && sounds::base_char(c) == c
            ==> tokens[k].phonemes == Some(g.unk@),
{
    lemma_token_read(g, input, out, tokens, k);
    lemma_symbol_writes_no_number(c);
    let word = tokens[k].text;
    if sounds::base_char(c) == c {
        assert(sounds::normalized(word) =~= word);
    }
}

/// Whether a text may be read as `ps`.
pub open spec fn may_read(g: G2P, input: Seq<char>, ps: Seq<char>) -> bool {
    exists|inner: Seq<Token>| #[trigger] g.outcome(input, Ok((ps, inner)))
}

/// A word that the lexicon does not know and that writes a number, with or without a sign, is
/// read as the number's words.
pub proof fn law_numbers_are_read_as_words(
    g: G2P,
    input: Seq<char>,
    out: Seq<char>,
    tokens: Seq<Token>,
    k: int,
)
    requires
        g.outcome(input, Ok((out, tokens))),
        0 <= k < tokens.len(),
        outcome::marked_tokens(input)[k].phonemes is None,
        heard(g, tokens, k) is None,
        number::number_in(tokens[k].text) is Some,
        number::spoken(tokens[k].text) != tokens[k].text,
    ensures
        tokens[k].phonemes matches Some(ps) && may_read(g, number::spoken(tokens[k].text), ps),
{
    lemma_token_read(g, input, out, tokens, k);
    let ps = tokens[k].phonemes->0;
    let words = number::spoken(tokens[k].text);
    assert(g.sub_outcome(input, words, Ok(ps)));
    let inner = choose|inner: Seq<Token>|
        ps == #[trigger] outcome::spoken_text(inner) && g.outcome(words, Ok((ps, inner)));
    assert(g.outcome(words, Ok((ps, inner))));
}

/// A hyphenated word that the lexicon does not know and that writes no number is read part by
/// part, with spaces between.
pub proof fn law_hyphenated_words_are_read_by_parts(
    g: G2P,
    input: Seq<char>,
    out: Seq<char>,
    tokens: Seq<Token>,
    k: int,
)
    requires
        g.outcome(input, Ok((out, tokens))),
        0 <= k < tokens.len(),
        outcome::marked_tokens(input)[k].phonemes is None,
        heard(g, tokens, k) is None,
        number::number_in(tokens[k].text) is None,
        steps::is_hyphenated(tokens[k].text),
    ensures
        is_read_by_parts(g, steps::hyphen_parts(tokens[k].text), tokens[k].phonemes),
{
    lemma_token_read(g, input, out, tokens, k);
    let ps = tokens[k].phonemes->0;
    lemma_list_read(g, input, steps::hyphen_parts(tokens[k].text), ps);
}

/// Whether a pronunciation is that of the given parts with spaces between.
pub open spec fn is_read_by_parts(
    g: G2P,
    parts: Seq<Seq<char>>,
    phonemes: Option<Seq<char>>,
) -> bool {
    exists|subs: Seq<Seq<char>>|
        {
            &&& subs.len() == parts.len()
            &&& phonemes == Some(#[trigger] text::joined(subs, " "@))
            &&& forall|i: int| 0 <= i < subs.len() ==> may_read(g, parts[i], #[trigger] subs[i])
        }
}

proof fn lemma_list_read(g: G2P, input: Seq<char>, parts: Seq<Seq<char>>, ps: Seq<char>)
    requires
        g.list_outcome(input, parts, Ok(ps)),
    ensures
        is_read_by_parts(g, parts, Some(ps)),
{
    let subs = choose|subs: Seq<Seq<char>>|
        subs.len() == parts.len() && ps == #[trigger] text::joined(subs, " "@) && g.list_reads(
            input,
            parts,
            subs,
        );
    assert forall|i: int| 0 <= i < subs.len() implies may_read(g, parts[i], #[trigger] subs[i]) by {
        assert(g.sub_outcome(input, parts[i], Ok(subs[i])));
        let inner = choose|inner: Seq<Token>|
            subs[i] == #[trigger] outcome::spoken_text(inner) && g.outcome(
                parts[i],
                Ok((subs[i], inner)),
            );
        assert(g.outcome(parts[i], Ok((subs[i], inner))));
    }
    assert(Some(ps) == Some(text::joined(subs, " "@)));
}

/// An unknown word of several characters that is neither hyphenated nor a number is
/// pronounced by the fallback, if there is one, and else character by character.
pub proof fn law_unknown_words(
    g: G2P,
    input: Seq<char>,
    out: Seq<char>,
    tokens: Seq<Token>,
    k: int,
)
    requires
        g.outcome(input, Ok((out, tokens))),
        0 <= k < tokens.len(),
        tokens[k].text.len() > 1,
        !steps::is_hyphenated(tokens[k].text),
        number::number_in(tokens[k].text) is None,
        is_unknown(g, input, tokens, k),
    ensures
        tokens[k].phonemes is Some,
        g.has_fallback() ==> g.fallback_may_answer(
            tokens[k].text,
            Ok(tokens[k].phonemes->0),
        ),
        !g.has_fallback() ==> is_read_by_parts(
            g,
            steps::letters_of(tokens[k].text),
            tokens[k].phonemes,
        ),
{
    lemma_token_read(g, input, out, tokens, k);
    let ps = tokens[k].phonemes->0;
    if !g.has_fallback() {
        assert(g.list_outcome(input, steps::letters_of(tokens[k].text), Ok(ps)));
        lemma_list_read(g, input, steps::letters_of(tokens[k].text), ps);
    }
}

proof fn lemma_no_runs(s: Seq<char>, i: int)
    requires
        forall|k: int| 0 <= k < s.len() ==> text::is_space(#[trigger] s[k]),
        0 <= i,
    ensures
        tokenize::runs_from(s, i) == Seq::<(int, int)>::empty(),
    decreases s.len() - i,
{
    if i < s.len() {
        lemma_no_runs(s, i + 1);
    }
}

/// A text of white space only, or of nothing, is read as nothing.
pub proof fn law_blank_text(
    g: G2P,
    input: Seq<char>,
    r: Result<(Seq<char>, Seq<Token>), FallbackError>,
)
    requires
        forall|k: int| 0 <= k < input.len() ==> text::is_space(#[trigger] input[k]),
        g.outcome(input, r),
    ensures
        r == Ok::<(Seq<char>, Seq<Token>), FallbackError>((Seq::empty(), Seq::empty())),
{
    let base = outcome::marked_tokens(input);
    laws::links::law_text_without_links(input);
    lemma_no_runs(input, 0);
    assert(tokenize::token_spans(input).len() == 0);
    marks::lemma_mark_keeps_text(
        tokenize::raw_tokens(input),
        outcome::byte_ranges(input),
        links::markers_of(input),
    );
    assert(base.len() == 0);
    if let Ok((out, tokens)) = r {
        lemma_tagged(g, base, tokens);
        assert(tokens =~= Seq::<Token>::empty());
    }
}

proof fn lemma_some_run(s: Seq<char>, i: int, at: int)
    requires
        0 <= i <= at < s.len(),
        !text::is_space(s[at]),
    ensures
        tokenize::runs_from(s, i).len() > 0,
    decreases s.len() - i,
{
    if text::is_space(s[i]) {
        lemma_some_run(s, i + 1, at);
    }
}

/// Every word gives at least one token.
proof fn lemma_some_token(s: Seq<char>, words: Seq<(int, int)>)
    ensures
        tokenize::cut_all(s, words).len() >= words.len(),
    decreases words.len(),
{
    if words.len() > 0 {
        lemma_some_token(s, words.drop_last());
    }
}

proof fn lemma_spoken_len(tokens: Seq<Token>)
    requires
        forall|k: int| 0 <= k < tokens.len() ==> (#[trigger] tokens[k]).whitespace == " "@,
    ensures
        outcome::spoken_text(tokens).len() >= tokens.len(),
    decreases tokens.len(),
{
    if tokens.len() > 0 {
        reveal_strlit(" ");
        lemma_spoken_len(tokens.drop_last());
        assert(tokens.last() == tokens[tokens.len() - 1]);
    }
}

/// A text that is not blank once its markup is taken out gives some output.
pub proof fn law_text_gives_output(
    g: G2P,
    input: Seq<char>,
    out: Seq<char>,
    tokens: Seq<Token>,
    at: int,
)
    requires
        g.outcome(input, Ok((out, tokens))),
        0 <= at < links::plain_text(input).len(),
        !text::is_space(links::plain_text(input)[at]),
    ensures
        tokens.len() > 0,
        out.len() > 0,
{
    let plain = links::plain_text(input);
    lemma_some_run(plain, 0, at);
    lemma_some_token(plain, tokenize::word_spans(plain));
    law_every_token_is_pronounced(g, input, out, tokens);
    lemma_spoken_len(tokens);
}

proof fn lemma_cut_holds(s: Seq<char>, words: Seq<(int, int)>, n: int)
    requires
        0 <= n < words.len(),
        tokenize::cut(
            words[n],
            tokenize::piece_spans(s.subrange(words[n].0, words[n].1)),
        ).contains(words[n]),
    ensures
        tokenize::cut_all(s, words).contains(words[n]),
    decreases words.len(),
{
    let rest = words.drop_last();
    let last = words.last();
    let before = tokenize::cut_all(s, rest);
    let added = tokenize::cut(last, tokenize::piece_spans(s.subrange(last.0, last.1)));
    if n < rest.len() {
        assert(rest[n] == words[n]);
        lemma_cut_holds(s, rest, n);
        let k = choose|k: int| 0 <= k < before.len() && before[k] == words[n];
        assert((before + added)[k] == words[n]);
    } else {
        let k = choose|k: int| 0 <= k < added.len() && added[k] == words[n];
        assert((before + added)[before.len() + k] == words[n]);
    }
}

/// A word of a text that is whole, being made of ASCII letters or a single character, is one
/// of the text's tokens.
pub proof fn law_whole_words_are_tokens(input: Seq<char>, n: int)
    requires
        0 <= n < tokenize::word_spans(input).len(),
        ({
            let word = tokenize::word_spans(input)[n];
            &&& tokenize::stays_whole(input, word)
            &&& tokenize::is_whole(input.subrange(word.0, word.1))
        }),
    ensures
        tokenize::token_spans(input).contains(tokenize::word_spans(input)[n]),
{
    let words = tokenize::word_spans(input);
    let word = words[n];
    let w = input.subrange(word.0, word.1);
    let c = tokenize::cut(word, tokenize::piece_spans(w));
    tokenize::lemma_runs_solid(input, 0);
    assert(tokenize::is_solid(input, word));
    assert(c[0] == word);
    lemma_cut_holds(input, words, n);
}

/// The text of a link as the only token of an input.
proof fn lemma_linked_word(word: Seq<char>, raw: Seq<char>, f: links::Feature)
    requires
        word.len() > 0,
        laws::links::lacks(word, ']'),
        laws::links::lacks(raw, ')'),
        links::feature_of(raw) == Some(f),
        tokenize::token_spans(word) == seq![(0int, word.len() as int)],
    ensures
        outcome::marked_tokens(laws::links::link(word, raw)) == seq![
            marks::featured(tokenize::raw_token(word, (0, word.len() as int)), f, true),
        ],
{
    let none = Seq::<char>::empty();
    let l = laws::links::link(word, raw);
    assert(none + l + none =~= l);
    laws::links::law_link_is_reduced_to_its_text(none, word, raw, none);
    assert(none + word + none =~= word);
    assert(none + word =~= word);
    text::lemma_utf8_len_chars(none);
    assert(links::plain_text(none) =~= none);
    let end = text::utf8_len(word);
    let m = links::Marker { start: 0, end: end as int, feature: f };
    assert(links::markers_of(l) =~= seq![m]);
    assert(word.take(0) =~= none);
    assert(word.take(word.len() as int) =~= word);
    let ranges = outcome::byte_ranges(word);
    assert(ranges =~= seq![(0int, end as int)]);
    let raws = tokenize::raw_tokens(word);
    assert(raws =~= seq![tokenize::raw_token(word, (0, word.len() as int))]);
    assert(seq![m].drop_last() =~= Seq::<links::Marker>::empty());
    reveal_with_fuel(marks::mark_all, 2);
    assert(marks::mark_all(raws, ranges, seq![m]) =~= seq![marks::featured(raws[0], f, true)]);
}

pub proof fn lemma_one_spoken(t: Token)
    requires
        t.phonemes is Some,
    ensures
        outcome::spoken_text(seq![t]) == t.phonemes->0 + t.whitespace,
{
    reveal_with_fuel(outcome::spoken_text, 2);
    assert(seq![t].drop_last() =~= Seq::<Token>::empty());
    assert(Seq::<char>::empty() + t.phonemes->0 =~= t.phonemes->0);
}

/// A pronunciation between slashes in a link on one word is read out as it stands, whatever
/// the word.
pub proof fn law_pronunciation_is_read_verbatim(
    g: G2P,
    word: Seq<char>,
    ps: Seq<char>,
    r: Result<(Seq<char>, Seq<Token>), FallbackError>,
)
    requires
        word.len() > 0,
        laws::links::lacks(word, ']'),
        laws::links::lacks(ps, ')'),
        ps.len() == 0 || ps.last() != '/',
        tokenize::token_spans(word) == seq![(0int, word.len() as int)],
        g.outcome(laws::links::link(word, seq!['/'] + ps + seq!['/']), r),
    ensures
        r matches Ok((out, _)) && out == ps + " "@,
{
    let raw = seq!['/'] + ps + seq!['/'];
    let input = laws::links::link(word, raw);
    let base = outcome::marked_tokens(input);
    laws::links::law_slashes_give_pronunciation(ps);
    lemma_linked_word(word, raw, links::Feature::Phonemes(ps));
    assert(base[0].phonemes == Some(ps));
    if let Ok((out, tokens)) = r {
        lemma_tagged(g, base, tokens);
        assert(g.token_outcome(input, base, tokens, 0, Ok(tokens[0].phonemes->0)));
        assert(tokens =~= seq![tokens[0]]);
        lemma_one_spoken(tokens[0]);
    }
}

/// A link that puts a stress level on one word with a certain plain entry gives the entry's
/// pronunciation at that level, whatever the word's casing.
pub proof fn law_stress_link_sets_level(
    g: G2P,
    word: Seq<char>,
    raw: Seq<char>,
    level: Stress,
    entry: String,
    r: Result<(Seq<char>, Seq<Token>), FallbackError>,
)
    requires
        word.len() > 0,
        laws::links::lacks(word, ']'),
        laws::links::lacks(raw, ')'),
        links::feature_of(raw) == Some(links::Feature::Stress(level)),
        tokenize::token_spans(word) == seq![(0int, word.len() as int)],
        lexicon::entry_of(g.lexicon.golds@, word) == Some(PhonemeEntry::Simple(entry)),
        forall|tag: Seq<char>, ctx: TokenContext| #[trigger]
            g.lexicon.special(word, tag, Some(level), Some(&ctx)) is None,
        g.outcome(laws::links::link(word, raw), r),
    ensures
        r matches Ok((out, _)) && out == stress::stressed(entry@, Some(level)) + " "@,
{
    let input = laws::links::link(word, raw);
    let base = outcome::marked_tokens(input);
    lemma_linked_word(word, raw, links::Feature::Stress(level));
    assert(word.subrange(0, word.len() as int) =~= word);
    match r {
        Ok((out, tokens)) => {
            lemma_tagged(g, base, tokens);
            lemma_token_read(g, input, out, tokens, 0);
            assert(tokens =~= seq![tokens[0]]);
            lemma_one_spoken(tokens[0]);
            let ctx = sounds::context_of(tokens, 0);
            let tag = tokens[0].tag;
            assert(g.lexicon.special(word, tag, Some(level), Some(&ctx)) is None);
            laws::lexicon::law_word_with_plain_entry(
                g.lexicon,
                word,
                tag,
                Some(level),
                Some(&ctx),
                entry,
            );
        },
        Err(e) => {
            let (tokens, k) = choose|tokens: Seq<Token>, k: int| #[trigger]
                g.is_tagged(base, tokens) && 0 <= k < base.len() && (
                #[trigger] base[k]).phonemes is None && g.reads_from(input, base, tokens, k + 1)
                    && g.token_outcome(input, base, tokens, k, Err(e));
            lemma_tagged(g, base, tokens);
            let ctx = sounds::context_of(tokens, 0);
            let tag = tokens[0].tag;
            assert(g.lexicon.special(word, tag, Some(level), Some(&ctx)) is None);
            laws::lexicon::law_word_with_plain_entry(
                g.lexicon,
                word,
                tag,
                Some(level),
                Some(&ctx),
                entry,
            );
            assert(tokens[0].text == word);
            assert(g.stress_for(tokens[0]) == Some(level));
            assert(g.lexicon_answer(word, tag, Some(level), ctx) is Some);
        },
    }
}

} // verus!
