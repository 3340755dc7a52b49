//! Cutting a text into tokens with regular expressions.

use crate::text;
use crate::token;
use crate::token::MToken;
use crate::unicode;
use regex::Regex;
use std::ops::Range;
use vstd::prelude::*;

verus! {

#[verifier::external_type_specification]
#[verifier::external_body]
pub struct ExRegex(Regex);

/// The pattern of a word: a run without white space.
pub const WORDS: &'static str = "\\S+";

/// The pattern of the pieces of a word: quotes, numbers, hyphens, letters with apostrophes
/// among them, and single symbols.
pub const SUBTOKENS: &'static str = "(?x)
            ^['‘’]+ |
            (?:^-)?(?:\\d?[,.]?\\d)+ |
            [\\-_]+ |
            ['‘’]{2,} |
            \\p{L}+(?:[''']\\p{L}+)* |
            [^\\s\\-_0-9\\p{L}''] |
            ['‘’]+$
        ";

/// The pattern that `Regex::new` made an expression of.
pub uninterp spec fn pattern_of(re: Regex) -> Seq<char>;

/// The matches that `Regex::find_iter` yields for a pattern in a text, each by the characters
/// that it spans.
pub uninterp spec fn matches_of(pattern: Seq<char>, hay: Seq<char>) -> Seq<(int, int)>;

/// A match of an expression: the bytes that it spans, and its text.
#[derive(Debug)]
pub struct Found {
    pub start: usize,
    pub end: usize,
    pub text: String,
}

/// Whether spans lie in a text of `n` characters, one behind the other.
pub open spec fn in_order(spans: Seq<(int, int)>, n: int) -> bool {
    &&& forall|k: int| 0 <= k < spans.len() ==> 0 <= (#[trigger] spans[k]).0 <= spans[k].1 <= n
    &&& forall|k: int, l: int|
        0 <= k < l < spans.len() ==> (#[trigger] spans[k]).1 <= (#[trigger] spans[l]).0
}

/// Whether a match is the one that spans the given characters of a text.
pub open spec fn is_found(f: Found, hay: Seq<char>, span: (int, int)) -> bool {
    &&& f.start == text::utf8_len(hay.take(span.0))
    &&& f.end == text::utf8_len(hay.take(span.1))
    &&& f.text@ == hay.subrange(span.0, span.1)
}

/// Whether matches are those that span the given characters of a text, which lie in the text
/// one behind the other.
pub open spec fn are_found(found: Seq<Found>, hay: Seq<char>, spans: Seq<(int, int)>) -> bool {
    &&& in_order(spans, hay.len() as int)
    &&& found.len() == spans.len()
    &&& forall|k: int| 0 <= k < found.len() ==> is_found(#[trigger] found[k], hay, spans[k])
}

/// Whether one of the matches holds the `i`th character of a text.
pub open spec fn is_matched(found: Seq<Found>, hay: Seq<char>, i: int) -> bool {
    exists|k: int|
        0 <= k < found.len() && (#[trigger] found[k]).start <= text::utf8_len(hay.take(i))
            < found[k].end
}

/// Whether a character always goes into a token: all do but white space and the ASCII
/// apostrophe.
pub open spec fn is_counted(c: char) -> bool {
    !text::is_space(c) && c != '\''
}

/// Whether one of the spans holds position `i`.
pub open spec fn is_spanned_by(spans: Seq<(int, int)>, i: int) -> bool {
    exists|k: int| 0 <= k < spans.len() && (#[trigger] spans[k]).0 <= i < spans[k].1
}

/// The maximal runs of characters that are not white space, from `i` on.
pub open spec fn runs_from(s: Seq<char>, i: int) -> Seq<(int, int)>
    decreases s.len() - i,
{
    if i >= s.len() {
        Seq::empty()
    } else if text::is_space(s[i]) {
        runs_from(s, i + 1)
    } else {
        let end = text::run_end(s, i);
        proof {
            text::lemma_run_end(s, i);
        }
        seq![(i, end)] + runs_from(s, end)
    }
}

/// Whether a word is a run of ASCII letters or a single character other than white space.
pub open spec fn is_whole(word: Seq<char>) -> bool {
    ||| word.len() == 1 && !text::is_space(word[0])
    ||| word.len() > 0 && forall|i: int|
        0 <= i < word.len() ==> unicode::is_ascii_letter(#[trigger] word[i])
}

/// Calls `Regex::new` on one of the two patterns above, which are both valid. Claimed: the
/// expression is one of that pattern.
#[verifier::external_body]
fn compile(pattern: &str) -> (re: Regex)
    requires
        pattern@ == WORDS@ || pattern@ == SUBTOKENS@,
    ensures
        pattern_of(re) == pattern@,
{
    Regex::new(pattern).unwrap()
}

/// Calls `Regex::find_iter` and takes each match's `start`, `end` and `as_str`. Claimed: the
/// matches depend on the expression's pattern and the text alone, lie one behind the other in
/// the text, and start and end between characters; those of `\S+` are the maximal runs of
/// characters without the Unicode property White_Space; and those of [`SUBTOKENS`] hold at
/// least one character, leave out nothing but white space and ASCII apostrophes, and a word
/// of ASCII letters, or a single character that is not white space, is one match. Which
/// matches it has in other words is not stated.
#[verifier::external_body]
fn find_all(re: &Regex, hay: &str) -> (r: Vec<Found>)
    ensures
        are_found(r@, hay@, matches_of(pattern_of(*re), hay@)),
        pattern_of(*re) == WORDS@ ==> are_found(r@, hay@, runs_from(hay@, 0)),
        pattern_of(*re) == SUBTOKENS@ ==> forall|k: int|
            0 <= k < r@.len() ==> (#[trigger] r@[k]).text@.len() > 0,
        pattern_of(*re) == SUBTOKENS@ ==> forall|i: int|
            0 <= i < hay@.len() && is_counted(#[trigger] hay@[i]) ==> is_matched(r@, hay@, i),
        pattern_of(*re) == SUBTOKENS@ && is_whole(hay@) ==> are_found(
            r@,
            hay@,
            seq![(0int, hay@.len() as int)],
        ),
{
    re.find_iter(hay).map(
        |m| Found { start: m.start(), end: m.end(), text: m.as_str().to_owned() },
    ).collect()
}

/// The characters that the words of a text span.
pub open spec fn word_spans(input: Seq<char>) -> Seq<(int, int)> {
    runs_from(input, 0)
}

/// The characters that the pieces of a word span.
pub open spec fn piece_spans(word: Seq<char>) -> Seq<(int, int)> {
    matches_of(SUBTOKENS@, word)
}

/// The tokens that a word is cut into: its pieces, or the word itself where it has none.
pub open spec fn cut(word: (int, int), pieces: Seq<(int, int)>) -> Seq<(int, int)> {
    if pieces.len() == 0 {
        seq![word]
    } else {
        pieces.map_values(|p: (int, int)| (word.0 + p.0, word.0 + p.1))
    }
}

/// The tokens that the given words of a text are cut into.
pub open spec fn cut_all(input: Seq<char>, words: Seq<(int, int)>) -> Seq<(int, int)>
    decreases words.len(),
{
    if words.len() == 0 {
        Seq::empty()
    } else {
        let word = words.last();
        cut_all(input, words.drop_last()) + cut(word, piece_spans(input.subrange(word.0, word.1)))
    }
}

/// The characters that the tokens of a text span.
pub open spec fn token_spans(input: Seq<char>) -> Seq<(int, int)> {
    cut_all(input, word_spans(input))
}

/// The token of a span, before anything is known of it but its text.
pub open spec fn raw_token(input: Seq<char>, span: (int, int)) -> token::Token {
    token::fresh(input.subrange(span.0, span.1), "NN"@, " "@)
}

/// The tokens of a text.
pub open spec fn raw_tokens(input: Seq<char>) -> Seq<token::Token> {
    token_spans(input).map_values(|span: (int, int)| raw_token(input, span))
}

/// Whether a span holds at least one character of a text, and no white space.
pub open spec fn is_solid(input: Seq<char>, span: (int, int)) -> bool {
    &&& 0 <= span.0 < span.1 <= input.len()
    &&& forall|i: int| span.0 <= i < span.1 ==> !text::is_space(#[trigger] input[i])
}

/// Whether a word that is whole is one token.
pub open spec fn stays_whole(input: Seq<char>, word: (int, int)) -> bool {
    let w = input.subrange(word.0, word.1);
    is_whole(w) ==> piece_spans(w) == seq![(0int, w.len() as int)]
}

/// Whether a span lies inside another.
pub open spec fn is_inside(span: (int, int), around: (int, int)) -> bool {
    around.0 <= span.0 && span.1 <= around.1
}

/// Whether a word is cut into at least one token, and all of them lie inside the word.
pub open spec fn is_cut_inside(input: Seq<char>, word: (int, int)) -> bool {
    let parts = cut(word, piece_spans(input.subrange(word.0, word.1)));
    &&& parts.len() > 0
    &&& forall|j: int| 0 <= j < parts.len() ==> is_inside(#[trigger] parts[j], word)
}

/// Whether a word is cut well: into tokens inside the word, one behind the other, that are
/// solid and hold every character that counts; and into one if it is whole.
pub open spec fn is_well_cut(input: Seq<char>, word: (int, int)) -> bool {
    let w = input.subrange(word.0, word.1);
    let parts = cut(word, piece_spans(w));
    &&& in_order(piece_spans(w), word.1 - word.0)
    &&& is_cut_inside(input, word)
    &&& stays_whole(input, word)
    &&& forall|j: int| 0 <= j < parts.len() ==> is_solid(input, #[trigger] parts[j])
    &&& forall|p: int|
        word.0 <= p < word.1 && is_counted(#[trigger] input[p]) ==> is_spanned_by(parts, p)
}

/// Whether a span lies inside one of the words.
pub open spec fn lies_in_word(span: (int, int), words: Seq<(int, int)>) -> bool {
    exists|n: int| 0 <= n < words.len() && is_inside(span, #[trigger] words[n])
}

/// Whether a word holds one of the spans.
pub open spec fn holds_token(word: (int, int), spans: Seq<(int, int)>) -> bool {
    exists|k: int| 0 <= k < spans.len() && is_inside(#[trigger] spans[k], word)
}

/// Whether a token with its bytes is that of a span.
pub open spec fn is_spanned(t: (MToken, Range<usize>), input: Seq<char>, span: (int, int)) -> bool {
    &&& t.0@ == raw_token(input, span)
    &&& t.1.start == text::utf8_len(input.take(span.0))
    &&& t.1.end == text::utf8_len(input.take(span.1))
}

/// The token of one match, `offset` bytes into the text.
fn token_at(f: &Found, offset: usize) -> (r: (MToken, Range<usize>))
    requires
        offset + f.start <= usize::MAX,
        offset + f.end <= usize::MAX,
    ensures
        r.0@ == token::fresh(f.text@, "NN"@, " "@),
        r.1.start == offset + f.start,
        r.1.end == offset + f.end,
{
    let t = MToken::new(f.text.clone(), "NN".to_owned(), " ".to_owned());
    (t, offset + f.start..offset + f.end)
}

/// The tokens of a word, given the pieces that were found in it: one for each piece, or one
/// for the word where there is none.
pub fn word_tokens(word: &Found, pieces: &Vec<Found>) -> (r: Vec<(MToken, Range<usize>)>)
    requires
        forall|k: int|
            0 <= k < pieces@.len() ==> word.start + (#[trigger] pieces@[k]).start <= usize::MAX
                && word.start + pieces@[k].end <= usize::MAX,
    ensures
        pieces@.len() == 0 ==> r@.len() == 1 && r@[0].0@ == token::fresh(word.text@, "NN"@, " "@)
            && r@[0].1.start == word.start && r@[0].1.end == word.end,
        pieces@.len() > 0 ==> r@.len() == pieces@.len() && forall|k: int|
            0 <= k < r@.len() ==> (#[trigger] r@[k]).0@ == token::fresh(
                pieces@[k].text@,
                "NN"@,
                " "@,
            ) && r@[k].1.start == word.start + pieces@[k].start && r@[k].1.end == word.start
                + pieces@[k].end,
{
    let mut r: Vec<(MToken, Range<usize>)> = Vec::new();
    if pieces.len() == 0 {
        r.push(token_at(word, 0));
        return r;
    }
    let mut i: usize = 0;
    while i < pieces.len()
        invariant
            i <= pieces@.len(),
            r@.len() == i,
            forall|k: int|
                0 <= k < pieces@.len() ==> word.start + (#[trigger] pieces@[k]).start <= usize::MAX
                    && word.start + pieces@[k].end <= usize::MAX,
            forall|k: int|
                0 <= k < i ==> (#[trigger] r@[k]).0@ == token::fresh(
                    pieces@[k].text@,
                    "NN"@,
                    " "@,
                ) && r@[k].1.start == word.start + pieces@[k].start && r@[k].1.end == word.start
                    + pieces@[k].end,
        decreases pieces@.len() - i,
    {
        r.push(token_at(&pieces[i], word.start));
        i = i + 1;
    }
    r
}

/// The two expressions that cut a text into tokens.
pub struct Tokenizer {
    words: Regex,
    pieces: Regex,
}

impl Tokenizer {
    #[verifier::type_invariant]
    spec fn well_formed(self) -> bool {
        pattern_of(self.words) == WORDS@ && pattern_of(self.pieces) == SUBTOKENS@
    }

    /// The patterns of the words and of their pieces.
    pub closed spec fn patterns(&self) -> (Seq<char>, Seq<char>) {
        (pattern_of(self.words), pattern_of(self.pieces))
    }

    /// Makes the two expressions.
    pub fn new() -> (r: Self)
        ensures
            r.patterns() == (WORDS@, SUBTOKENS@),
    {
        Tokenizer { words: compile(WORDS), pieces: compile(SUBTOKENS) }
    }

    /// Cuts a text into tokens, each with the bytes that it spans.
    pub fn tokenize(&self, input: &str) -> (r: Vec<(MToken, Range<usize>)>)
        ensures
            in_order(token_spans(input@), input@.len() as int),
            r@.len() == token_spans(input@).len(),
            forall|k: int|
                0 <= k < r@.len() ==> is_spanned(#[trigger] r@[k], input@, token_spans(input@)[k]),
            forall|k: int|
                0 <= k < r@.len() ==> is_solid(input@, #[trigger] token_spans(input@)[k]),
            forall|i: int|
                0 <= i < input@.len() && is_counted(#[trigger] input@[i]) ==> is_spanned_by(
                    token_spans(input@),
                    i,
                ),
            forall|n: int|
                0 <= n < word_spans(input@).len() ==> stays_whole(
                    input@,
                    #[trigger] word_spans(input@)[n],
                ),
            forall|n: int|
                0 <= n < word_spans(input@).len() ==> is_cut_inside(
                    input@,
                    #[trigger] word_spans(input@)[n],
                ) && holds_token(word_spans(input@)[n], token_spans(input@)),
            forall|k: int|
                0 <= k < r@.len() ==> lies_in_word(
                    #[trigger] token_spans(input@)[k],
                    word_spans(input@),
                ),
            is_whole(input@) ==> token_spans(input@) == seq![(0int, input@.len() as int)],
    {
        let words = find_all(&self.words, input);
        let ghost spans = word_spans(input@);
        let mut r: Vec<(MToken, Range<usize>)> = Vec::new();
        let mut i: usize = 0;
        proof {
            use_type_invariant(self);
            lemma_runs_solid(input@, 0);
        }
        while i < words.len()
            invariant
                i <= words@.len(),
                words@.len() == spans.len(),
                forall|k: int|
                    0 <= k < words@.len() ==> is_found(#[trigger] words@[k], input@, spans[k]),
                forall|k: int| 0 <= k < spans.len() ==> is_solid(input@, #[trigger] spans[k]),
                forall|n: int| 0 <= n < i ==> is_well_cut(input@, #[trigger] spans[n]),
                r@.len() == cut_all(input@, spans.take(i as int)).len(),
                forall|k: int|
                    0 <= k < r@.len() ==> is_spanned(
                        #[trigger] r@[k],
                        input@,
                        cut_all(input@, spans.take(i as int))[k],
                    ),
            decreases words@.len() - i,
        {
            let ghost span = spans[i as int];
            assert(is_found(words@[i as int], input@, span));
            assert(is_solid(input@, span));
            let mut more = self.cut_word(input, &words[i], Ghost(span));
            let ghost done = cut_all(input@, spans.take(i as int));
            let ghost added = cut(span, piece_spans(input@.subrange(span.0, span.1)));
            let ghost before = r@;
            let ghost extra = more@;
            r.append(&mut more);
            proof {
                assert(spans.take(i + 1).drop_last() =~= spans.take(i as int));
                assert(cut_all(input@, spans.take(i + 1)) == done + added);
                assert forall|k: int| 0 <= k < r@.len() implies is_spanned(
                    #[trigger] r@[k],
                    input@,
                    (done + added)[k],
                ) by {
                    if k < before.len() {
                        assert(r@[k] == before[k]);
                    } else {
                        assert(r@[k] == extra[k - before.len()]);
                    }
                }
            }
            i = i + 1;
        }
        proof {
            assert(spans.take(words@.len() as int) =~= spans);
            lemma_text_cut(input@);
        }
        r
    }

    /// Cuts a word of a text into tokens, each with the bytes of the text that it spans.
    fn cut_word(&self, input: &str, word: &Found, Ghost(span): Ghost<(int, int)>) -> (r: Vec<
        (MToken, Range<usize>),
    >)
        requires
            is_found(*word, input@, span),
            is_solid(input@, span),
        ensures
            is_well_cut(input@, span),
            ({
                let added = cut(span, piece_spans(input@.subrange(span.0, span.1)));
                &&& r@.len() == added.len()
                &&& forall|k: int|
                    0 <= k < r@.len() ==> is_spanned(#[trigger] r@[k], input@, added[k])
            }),
    {
        proof {
            use_type_invariant(self);
        }
        let total: usize = text::byte_len(input);
        let pieces = find_all(&self.pieces, word.text.as_str());
        let ghost inner = piece_spans(word.text@);
        let ghost added = cut(span, inner);
        proof {
            assert forall|k: int| 0 <= k < pieces@.len() implies word.start + (
            #[trigger] pieces@[k]).start <= usize::MAX && word.start + pieces@[k].end <= usize::MAX
                && word.start + pieces@[k].start == text::utf8_len(
                input@.take(span.0 + inner[k].0),
            ) && word.start + pieces@[k].end == text::utf8_len(input@.take(span.0 + inner[k].1))
                && pieces@[k].text@ == input@.subrange(span.0 + inner[k].0, span.0 + inner[k].1) by {
                assert(is_found(pieces@[k], word.text@, inner[k]));
                lemma_nested(input@, span, inner[k].0);
                lemma_nested(input@, span, inner[k].1);
                assert(word.text@.subrange(inner[k].0, inner[k].1) =~= input@.subrange(
                    span.0 + inner[k].0,
                    span.0 + inner[k].1,
                ));
            }
        }
        let r = word_tokens(word, &pieces);
        proof {
            assert forall|k: int| 0 <= k < r@.len() implies is_spanned(
                #[trigger] r@[k],
                input@,
                added[k],
            ) by {
                if inner.len() > 0 {
                    let p = pieces@[k];
                    assert(p.text@ == input@.subrange(added[k].0, added[k].1));
                }
            }
            if is_whole(word.text@) {
                lemma_same_spans(
                    pieces@,
                    word.text@,
                    inner,
                    seq![(0int, word.text@.len() as int)],
                );
            }
            lemma_pieces_hold(input@, span, pieces@, inner);
            assert forall|j: int| 0 <= j < added.len() implies is_inside(#[trigger] added[j], span)
                && is_solid(input@, added[j]) by {
                if inner.len() > 0 {
                    assert(is_found(pieces@[j], word.text@, inner[j]));
                    assert(pieces@[j].text@.len() == inner[j].1 - inner[j].0);
                    assert(added[j] == (span.0 + inner[j].0, span.0 + inner[j].1));
                }
            }
        }
        r
    }
}

/// A run holds at least one character, and no white space.
pub proof fn lemma_runs_solid(s: Seq<char>, i: int)
    requires
        0 <= i,
    ensures
        forall|k: int|
            0 <= k < runs_from(s, i).len() ==> is_solid(s, #[trigger] runs_from(s, i)[k]),
    decreases s.len() - i,
{
    if i < s.len() {
        if text::is_space(s[i]) {
            lemma_runs_solid(s, i + 1);
            assert(runs_from(s, i) == runs_from(s, i + 1));
        } else {
            let end = text::run_end(s, i);
            text::lemma_run_end(s, i);
            lemma_runs_solid(s, end);
            let rest = runs_from(s, end);
            assert(runs_from(s, i) == seq![(i, end)] + rest);
            assert forall|k: int| 0 <= k < runs_from(s, i).len() implies is_solid(
                s,
                #[trigger] runs_from(s, i)[k],
            ) by {
                if k > 0 {
                    assert(runs_from(s, i)[k] == rest[k - 1]);
                }
            }
        }
    }
}

/// Every character that is not white space lies in a run.
proof fn lemma_runs_hold(s: Seq<char>, i: int)
    requires
        0 <= i,
    ensures
        forall|p: int|
            i <= p < s.len() && !text::is_space(#[trigger] s[p]) ==> is_spanned_by(
                runs_from(s, i),
                p,
            ),
    decreases s.len() - i,
{
    if i < s.len() {
        if text::is_space(s[i]) {
            lemma_runs_hold(s, i + 1);
            assert(runs_from(s, i) == runs_from(s, i + 1));
        } else {
            let end = text::run_end(s, i);
            text::lemma_run_end(s, i);
            lemma_runs_hold(s, end);
            let rest = runs_from(s, end);
            let runs = runs_from(s, i);
            assert(runs == seq![(i, end)] + rest);
            assert forall|p: int| i <= p < s.len() && !text::is_space(#[trigger] s[p]) implies
                is_spanned_by(runs, p) by {
                if p < end {
                    assert(runs[0] == (i, end));
                } else {
                    assert(is_spanned_by(rest, p));
                    let k = choose|k: int|
                        0 <= k < rest.len() && (#[trigger] rest[k]).0 <= p < rest[k].1;
                    assert(runs[k + 1] == rest[k]);
                }
            }
        }
    }
}

/// The tokens of a word hold all of its characters that a match holds.
proof fn lemma_pieces_hold(
    input: Seq<char>,
    span: (int, int),
    pieces: Seq<Found>,
    inner: Seq<(int, int)>,
)
    requires
        0 <= span.0 <= span.1 <= input.len(),
        are_found(pieces, input.subrange(span.0, span.1), inner),
        forall|i: int|
            0 <= i < span.1 - span.0 && is_counted(
                #[trigger] input.subrange(span.0, span.1)[i],
            ) ==> is_matched(pieces, input.subrange(span.0, span.1), i),
    ensures
        forall|p: int|
            span.0 <= p < span.1 && is_counted(#[trigger] input[p]) ==> is_spanned_by(
                cut(span, inner),
                p,
            ),
{
    let word = input.subrange(span.0, span.1);
    let added = cut(span, inner);
    assert forall|p: int| span.0 <= p < span.1 && is_counted(#[trigger] input[p]) implies
        is_spanned_by(added, p) by {
        let at = p - span.0;
        assert(word[at] == input[p]);
        if inner.len() == 0 {
            assert(added[0] == span);
        } else {
            let k = choose|k: int|
                0 <= k < pieces.len() && (#[trigger] pieces[k]).start <= text::utf8_len(
                    word.take(at),
                ) < pieces[k].end;
            assert(is_found(pieces[k], word, inner[k]));
            if at < inner[k].0 {
                text::lemma_utf8_len_take(word, at, inner[k].0);
                text::lemma_utf8_len_chars(word.subrange(at, inner[k].0));
            }
            if inner[k].1 <= at {
                text::lemma_utf8_len_take(word, inner[k].1, at);
            }
            assert(added[k] == (span.0 + inner[k].0, span.0 + inner[k].1));
        }
    }
}

/// The tokens of words that are cut well stand in order.
proof fn lemma_all_in_order(input: Seq<char>, words: Seq<(int, int)>)
    requires
        in_order(words, input.len() as int),
        forall|n: int| 0 <= n < words.len() ==> is_well_cut(input, #[trigger] words[n]),
    ensures
        in_order(
            cut_all(input, words),
            if words.len() == 0 {
                0
            } else {
                words.last().1
            },
        ),
    decreases words.len(),
{
    if words.len() > 0 {
        let i = words.len() - 1;
        let rest = words.drop_last();
        assert(forall|n: int| 0 <= n < rest.len() ==> rest[n] == words[n]);
        lemma_all_in_order(input, rest);
        assert(is_well_cut(input, words[i]));
        let inner = piece_spans(input.subrange(words[i].0, words[i].1));
        lemma_cut_in_order(cut_all(input, rest), words, i, inner, input.len() as int);
    }
}

/// The tokens of words that are cut well are solid, each lies in a word, and each word holds
/// one.
proof fn lemma_all_inside(input: Seq<char>, words: Seq<(int, int)>)
    requires
        forall|n: int| 0 <= n < words.len() ==> is_well_cut(input, #[trigger] words[n]),
    ensures
        forall|k: int|
            0 <= k < cut_all(input, words).len() ==> lies_in_word(
                #[trigger] cut_all(input, words)[k],
                words,
            ) && is_solid(input, cut_all(input, words)[k]),
        forall|n: int|
            0 <= n < words.len() ==> holds_token(#[trigger] words[n], cut_all(input, words)),
    decreases words.len(),
{
    if words.len() > 0 {
        let i = words.len() - 1;
        let rest = words.drop_last();
        let last = words[i];
        assert(forall|n: int| 0 <= n < rest.len() ==> rest[n] == words[n]);
        lemma_all_inside(input, rest);
        let before = cut_all(input, rest);
        let added = cut(last, piece_spans(input.subrange(last.0, last.1)));
        let all = cut_all(input, words);
        assert(is_well_cut(input, last));
        assert(all == before + added);
        assert forall|k: int| 0 <= k < all.len() implies lies_in_word(#[trigger] all[k], words)
            && is_solid(input, all[k]) by {
            if k < before.len() {
                assert(all[k] == before[k]);
                let n = choose|n: int|
                    0 <= n < rest.len() && is_inside(before[k], #[trigger] rest[n]);
                assert(is_inside(all[k], words[n]));
            } else {
                assert(all[k] == added[k - before.len()]);
                assert(is_inside(all[k], words[i]));
            }
        }
        assert forall|n: int| 0 <= n < words.len() implies holds_token(#[trigger] words[n], all) by {
            if n < i {
                assert(holds_token(rest[n], before));
                let k = choose|k: int|
                    0 <= k < before.len() && is_inside(#[trigger] before[k], rest[n]);
                assert(all[k] == before[k]);
            } else {
                assert(all[before.len() as int] == added[0]);
            }
        }
    }
}

/// The tokens of words that are cut well hold what counts in the words.
proof fn lemma_all_held(input: Seq<char>, words: Seq<(int, int)>, n: int, p: int)
    requires
        0 <= n < words.len(),
        is_well_cut(input, words[n]),
        words[n].0 <= p < words[n].1,
        is_counted(input[p]),
    ensures
        is_spanned_by(cut_all(input, words), p),
    decreases words.len(),
{
    let rest = words.drop_last();
    let last = words.last();
    let before = cut_all(input, rest);
    let added = cut(last, piece_spans(input.subrange(last.0, last.1)));
    let all = cut_all(input, words);
    assert(all == before + added);
    if n < rest.len() {
        assert(rest[n] == words[n]);
        lemma_all_held(input, rest, n, p);
        let k = choose|k: int| 0 <= k < before.len() && (#[trigger] before[k]).0 <= p < before[k].1;
        assert(all[k] == before[k]);
    } else {
        let k = choose|k: int| 0 <= k < added.len() && (#[trigger] added[k]).0 <= p < added[k].1;
        assert(all[before.len() + k] == added[k]);
    }
}

/// The tokens of a text whose words are cut well.
proof fn lemma_text_cut(input: Seq<char>)
    requires
        in_order(word_spans(input), input.len() as int),
        forall|n: int|
            0 <= n < word_spans(input).len() ==> is_well_cut(
                input,
                #[trigger] word_spans(input)[n],
            ),
    ensures
        in_order(token_spans(input), input.len() as int),
        forall|k: int|
            0 <= k < token_spans(input).len() ==> is_solid(
                input,
                #[trigger] token_spans(input)[k],
            ) && lies_in_word(token_spans(input)[k], word_spans(input)),
        forall|i: int|
            0 <= i < input.len() && is_counted(#[trigger] input[i]) ==> is_spanned_by(
                token_spans(input),
                i,
            ),
        forall|n: int|
            0 <= n < word_spans(input).len() ==> stays_whole(
                input,
                #[trigger] word_spans(input)[n],
            ) && is_cut_inside(input, word_spans(input)[n]) && holds_token(
                word_spans(input)[n],
                token_spans(input),
            ),
        is_whole(input) ==> token_spans(input) == seq![(0int, input.len() as int)],
{
    let spans = word_spans(input);
    lemma_all_in_order(input, spans);
    lemma_all_inside(input, spans);
    lemma_all_counted(input);
    assert(spans.len() > 0 ==> spans.last() == spans[spans.len() - 1]);
    if is_whole(input) {
        lemma_whole_text(input);
    }
}

/// A whole text is one token, if its only word stays whole.
proof fn lemma_whole_text(input: Seq<char>)
    requires
        is_whole(input),
        forall|n: int|
            0 <= n < word_spans(input).len() ==> is_well_cut(
                input,
                #[trigger] word_spans(input)[n],
            ),
    ensures
        token_spans(input) == seq![(0int, input.len() as int)],
{
    lemma_one_run(input, 0);
    let all = seq![(0int, input.len() as int)];
    assert(is_well_cut(input, word_spans(input)[0]));
    assert(stays_whole(input, all[0]));
    assert(input.subrange(0, input.len() as int) =~= input);
    assert(all.drop_last() =~= Seq::<(int, int)>::empty());
    reveal_with_fuel(cut_all, 2);
    assert(cut_all(input, all) =~= all);
}

/// Every character that counts lies in a token, if every word is cut well.
proof fn lemma_all_counted(input: Seq<char>)
    requires
        forall|n: int|
            0 <= n < word_spans(input).len() ==> is_well_cut(
                input,
                #[trigger] word_spans(input)[n],
            ),
    ensures
        forall|i: int|
            0 <= i < input.len() && is_counted(#[trigger] input[i]) ==> is_spanned_by(
                token_spans(input),
                i,
            ),
{
    let spans = word_spans(input);
    lemma_runs_hold(input, 0);
    assert forall|i: int| 0 <= i < input.len() && is_counted(#[trigger] input[i]) implies
        is_spanned_by(token_spans(input), i) by {
        assert(is_spanned_by(spans, i));
        let n = choose|n: int| 0 <= n < spans.len() && (#[trigger] spans[n]).0 <= i < spans[n].1;
        lemma_all_held(input, spans, n, i);
    }
}

/// A text without white space is one run.
proof fn lemma_one_run(s: Seq<char>, i: int)
    requires
        is_whole(s),
        0 <= i < s.len(),
    ensures
        runs_from(s, i) == seq![(i, s.len() as int)],
    decreases s.len() - i,
{
    assert forall|k: int| 0 <= k < s.len() implies !text::is_space(#[trigger] s[k]) by {
        if s.len() > 1 {
            assert(unicode::is_ascii_letter(s[k]));
        }
    }
    lemma_run_to_end(s, i);
    assert(runs_from(s, s.len() as int) =~= Seq::<(int, int)>::empty());
    assert(runs_from(s, i) =~= seq![(i, s.len() as int)]);
}

proof fn lemma_run_to_end(s: Seq<char>, i: int)
    requires
        forall|k: int| 0 <= k < s.len() ==> !text::is_space(#[trigger] s[k]),
        0 <= i <= s.len(),
    ensures
        text::run_end(s, i) == s.len(),
    decreases s.len() - i,
{
    if i < s.len() {
        lemma_run_to_end(s, i + 1);
    }
}

/// The bytes of a match tell which characters it spans.
proof fn lemma_same_spans(
    found: Seq<Found>,
    hay: Seq<char>,
    a: Seq<(int, int)>,
    b: Seq<(int, int)>,
)
    requires
        are_found(found, hay, a),
        are_found(found, hay, b),
    ensures
        a == b,
{
    assert forall|k: int| 0 <= k < a.len() implies a[k] == b[k] by {
        assert(is_found(found[k], hay, a[k]));
        assert(is_found(found[k], hay, b[k]));
        lemma_same_place(hay, a[k].0, b[k].0);
        lemma_same_place(hay, a[k].1, b[k].1);
    }
    assert(a =~= b);
}

proof fn lemma_same_place(s: Seq<char>, i: int, j: int)
    requires
        0 <= i <= s.len(),
        0 <= j <= s.len(),
        text::utf8_len(s.take(i)) == text::utf8_len(s.take(j)),
    ensures
        i == j,
{
    if i < j {
        text::lemma_utf8_len_take(s, i, j);
        text::lemma_utf8_len_chars(s.subrange(i, j));
    } else if j < i {
        text::lemma_utf8_len_take(s, j, i);
        text::lemma_utf8_len_chars(s.subrange(j, i));
    }
}

/// Where a position in a word stands in the text around it.
proof fn lemma_nested(input: Seq<char>, span: (int, int), at: int)
    requires
        0 <= span.0 <= span.1 <= input.len(),
        0 <= at <= span.1 - span.0,
    ensures
        text::utf8_len(input.take(span.0)) + text::utf8_len(
            input.subrange(span.0, span.1).take(at),
        ) == text::utf8_len(input.take(span.0 + at)),
        text::utf8_len(input.take(span.0 + at)) <= text::utf8_len(input),
{
    text::lemma_utf8_len_take(input, span.0, span.0 + at);
    assert(input.subrange(span.0, span.1).take(at) =~= input.subrange(span.0, span.0 + at));
}

/// The tokens of one more word come behind those of the words before it.
proof fn lemma_cut_in_order(
    done: Seq<(int, int)>,
    spans: Seq<(int, int)>,
    i: int,
    inner: Seq<(int, int)>,
    n: int,
)
    requires
        0 <= i < spans.len(),
        in_order(spans, n),
        in_order(
            done,
            if i == 0 {
                0
            } else {
                spans[i - 1].1
            },
        ),
        in_order(inner, spans[i].1 - spans[i].0),
    ensures
        in_order(done + cut(spans[i], inner), spans[i].1),
{
    let added = cut(spans[i], inner);
    let all = done + added;
    let limit = if i == 0 {
        0
    } else {
        spans[i - 1].1
    };
    assert(limit <= spans[i].0);
    assert forall|k: int| 0 <= k < all.len() implies 0 <= (#[trigger] all[k]).0 <= all[k].1
        <= spans[i].1 by {
        if k < done.len() {
            assert(all[k] == done[k]);
        } else if inner.len() > 0 {
            let p = inner[k - done.len()];
            assert(all[k] == (spans[i].0 + p.0, spans[i].0 + p.1));
        }
    }
    assert forall|k: int, l: int| 0 <= k < l < all.len() implies (#[trigger] all[k]).1 <= (
    #[trigger] all[l]).0 by {
        if l < done.len() {
            assert(all[k] == done[k] && all[l] == done[l]);
        } else if k < done.len() {
            assert(all[k] == done[k]);
            if inner.len() > 0 {
                let q = inner[l - done.len()];
                assert(all[l] == (spans[i].0 + q.0, spans[i].0 + q.1));
            }
        } else if inner.len() > 0 {
            let p = inner[k - done.len()];
            let q = inner[l - done.len()];
            assert(all[k] == (spans[i].0 + p.0, spans[i].0 + p.1));
            assert(all[l] == (spans[i].0 + q.0, spans[i].0 + q.1));
        }
    }
}

} // verus!
