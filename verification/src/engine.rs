//! Reading a text aloud.

use crate::g2p::{unzip, G2PError, G2P};
use crate::laws;
use crate::lexicon::TokenContext;
use crate::links;
use crate::marks;
use crate::number;
use crate::outcome;
use crate::sounds;
use crate::steps;
use crate::steps::Step;
use crate::stress::Stress;
use crate::text;
use crate::token;
use crate::token::{MToken, Token};
use crate::tokenize;
use crate::unicode;
use vstd::prelude::*;

verus! {

/// Whether `a` is no longer than `b` and holds no character that `b` does not hold.
pub open spec fn is_within(a: Seq<char>, b: Seq<char>) -> bool {
    &&& a.len() <= b.len()
    &&& forall|i: int| 0 <= i < a.len() ==> b.contains(#[trigger] a[i])
}

/// Taking the markup out adds nothing.
proof fn lemma_plain_within(s: Seq<char>, i: int)
    requires
        0 <= i,
    ensures
        i <= s.len() ==> links::plain_from(s, i).len() <= s.len() - i,
        i > s.len() ==> links::plain_from(s, i).len() == 0,
        forall|k: int|
            0 <= k < links::plain_from(s, i).len() ==> s.contains(
                #[trigger] links::plain_from(s, i)[k],
            ),
    decreases s.len() - i,
{
    if i < s.len() {
        match links::link_at(s, i) {
            Some((j, k)) => {
                links::lemma_first_at(s, ']', i + 1);
                links::lemma_first_at(s, ')', j + 2);
                lemma_plain_within(s, k + 1);
                let inner = s.subrange(i + 1, j);
                let rest = links::plain_from(s, k + 1);
                assert forall|n: int| 0 <= n < links::plain_from(s, i).len() implies s.contains(
                    #[trigger] links::plain_from(s, i)[n],
                ) by {
                    if n < inner.len() {
                        assert(links::plain_from(s, i)[n] == s[i + 1 + n]);
                    } else {
                        assert(links::plain_from(s, i)[n] == rest[n - inner.len()]);
                    }
                }
            },
            None => {
                lemma_plain_within(s, i + 1);
                let rest = links::plain_from(s, i + 1);
                assert forall|n: int| 0 <= n < links::plain_from(s, i).len() implies s.contains(
                    #[trigger] links::plain_from(s, i)[n],
                ) by {
                    if n == 0 {
                        assert(links::plain_from(s, i)[n] == s[i]);
                    } else {
                        assert(links::plain_from(s, i)[n] == rest[n - 1]);
                    }
                }
            },
        }
    }
}

/// The text of every token lies within the input.
proof fn lemma_tokens_within(input: Seq<char>)
    requires
        tokenize::in_order(
            tokenize::token_spans(links::plain_text(input)),
            links::plain_text(input).len() as int,
        ),
    ensures
        forall|k: int|
            0 <= k < outcome::marked_tokens(input).len() ==> is_within(
                (#[trigger] outcome::marked_tokens(input)[k]).text,
                input,
            ),
{
    let plain = links::plain_text(input);
    let spans = tokenize::token_spans(plain);
    lemma_plain_within(input, 0);
    marks::lemma_mark_keeps_text(
        tokenize::raw_tokens(plain),
        outcome::byte_ranges(plain),
        links::markers_of(input),
    );
    assert forall|k: int| 0 <= k < outcome::marked_tokens(input).len() implies is_within(
        (#[trigger] outcome::marked_tokens(input)[k]).text,
        input,
    ) by {
        let t = outcome::marked_tokens(input)[k].text;
        assert(t == plain.subrange(spans[k].0, spans[k].1));
        assert forall|i: int| 0 <= i < t.len() implies input.contains(#[trigger] t[i]) by {
            assert(t[i] == plain[spans[k].0 + i]);
        }
    }
}

/// What lies within holds no digit that was not there.
proof fn lemma_digit_rank_within(a: Seq<char>, b: Seq<char>)
    requires
        forall|i: int| 0 <= i < a.len() ==> b.contains(#[trigger] a[i]),
    ensures
        outcome::digit_rank(a) <= outcome::digit_rank(b),
{
    if exists|i: int| 0 <= i < a.len() && number::is_digit(#[trigger] a[i]) {
        let i = choose|i: int| 0 <= i < a.len() && number::is_digit(#[trigger] a[i]);
        assert(b.contains(a[i]));
        let j = choose|j: int| 0 <= j < b.len() && b[j] == a[i];
        assert(number::is_digit(b[j]));
    }
}

/// Each piece of a split is shorter than the whole by what it was split at, and is made of
/// the same characters.
proof fn lemma_split_within(s: Seq<char>, c: char)
    ensures
        text::split(s, c).len() >= 1,
        forall|k: int|
            0 <= k < text::split(s, c).len() ==> (#[trigger] text::split(s, c)[k]).len()
                + text::split(s, c).len() <= s.len() + 1,
        forall|k: int, i: int|
            0 <= k < text::split(s, c).len() && 0 <= i < text::split(s, c)[k].len()
                ==> s.contains(#[trigger] text::split(s, c)[k][i]),
        s.contains(c) ==> text::split(s, c).len() >= 2,
    decreases s.len(),
{
    if s.len() > 0 {
        let t = s.drop_last();
        lemma_split_within(t, c);
        let before = text::split(t, c);
        let all = text::split(s, c);
        assert forall|x: char| t.contains(x) implies s.contains(x) by {
            let i = choose|i: int| 0 <= i < t.len() && t[i] == x;
            assert(s[i] == x);
        }
        assert(s.contains(s.last())) by {
            assert(s[s.len() - 1] == s.last());
        }
        assert forall|k: int| 0 <= k < all.len() implies (#[trigger] all[k]).len() + all.len()
            <= s.len() + 1 by {
            if k < before.len() {
                assert(before[k].len() + before.len() <= t.len() + 1);
            }
            if k == all.len() - 1 {
                assert(before[before.len() - 1].len() + before.len() <= t.len() + 1);
            }
        }
        assert forall|k: int, i: int| 0 <= k < all.len() && 0 <= i < all[k].len() implies s.contains(
            #[trigger] all[k][i],
        ) by {
            if s.last() == c {
                if k < before.len() {
                    assert(all[k][i] == before[k][i]);
                    assert(t.contains(before[k][i]));
                }
            } else if k < before.len() - 1 {
                assert(all[k][i] == before[k][i]);
                assert(t.contains(before[k][i]));
            } else if i < before[k].len() {
                assert(all[k][i] == before[k][i]);
                assert(t.contains(before[k][i]));
            }
        }
        if s.contains(c) && s.last() != c {
            let i = choose|i: int| 0 <= i < s.len() && s[i] == c;
            assert(t[i] == c);
        }
    }
}

/// What is left of a list by a filter was in the list.
proof fn lemma_filter_from(s: Seq<Seq<char>>, keep: spec_fn(Seq<char>) -> bool)
    ensures
        forall|k: int| 0 <= k < s.filter(keep).len() ==> s.contains(#[trigger] s.filter(keep)[k]),
    decreases s.len(),
{
    reveal(Seq::filter);
    if s.len() > 0 {
        let t = s.drop_last();
        lemma_filter_from(t, keep);
        assert forall|k: int| 0 <= k < s.filter(keep).len() implies s.contains(
            #[trigger] s.filter(keep)[k],
        ) by {
            if k < t.filter(keep).len() {
                assert(s.filter(keep)[k] == t.filter(keep)[k]);
                let i = choose|i: int| 0 <= i < t.len() && t[i] == t.filter(keep)[k];
                assert(s[i] == t[i]);
            } else {
                assert(s.filter(keep)[k] == s[s.len() - 1]);
            }
        }
    }
}

/// The parts of a hyphenated word are smaller tasks.
proof fn lemma_hyphen_parts_smaller(word: Seq<char>, input: Seq<char>)
    requires
        is_within(word, input),
        word.contains('-'),
    ensures
        forall|k: int|
            0 <= k < steps::hyphen_parts(word).len() ==> outcome::is_smaller(
                #[trigger] steps::hyphen_parts(word)[k],
                input,
            ),
{
    let all = text::split(word, '-');
    let parts = steps::hyphen_parts(word);
    lemma_split_within(word, '-');
    lemma_filter_from(all, |p: Seq<char>| p.len() > 0);
    assert forall|k: int| 0 <= k < parts.len() implies outcome::is_smaller(
        #[trigger] parts[k],
        input,
    ) by {
        assert(all.contains(parts[k]));
        let j = choose|j: int| 0 <= j < all.len() && all[j] == parts[k];
        assert(all[j].len() + all.len() <= word.len() + 1);
        assert forall|i: int| 0 <= i < parts[k].len() implies input.contains(
            #[trigger] parts[k][i],
        ) by {
            assert(word.contains(all[j][i]));
            let n = choose|n: int| 0 <= n < word.len() && word[n] == all[j][i];
            assert(input.contains(word[n]));
        }
        lemma_digit_rank_within(parts[k], input);
    }
}

/// The characters of a longer word are smaller tasks.
proof fn lemma_letters_smaller(word: Seq<char>, input: Seq<char>)
    requires
        is_within(word, input),
        word.len() > 1,
    ensures
        forall|k: int|
            0 <= k < steps::letters_of(word).len() ==> outcome::is_smaller(
                #[trigger] steps::letters_of(word)[k],
                input,
            ),
{
    let letters = steps::letters_of(word);
    assert forall|k: int| 0 <= k < letters.len() implies outcome::is_smaller(
        #[trigger] letters[k],
        input,
    ) by {
        assert(letters[k] == seq![word[k]]);
        assert(input.contains(word[k]));
        lemma_digit_rank_within(letters[k], input);
    }
}

/// A number's words are a smaller task than its digits.
proof fn lemma_spoken_smaller(word: Seq<char>, words: Seq<char>, input: Seq<char>)
    requires
        is_within(word, input),
        number::number_in(word) is Some,
        forall|i: int| 0 <= i < words.len() ==> number::is_word_char(#[trigger] words[i]),
    ensures
        outcome::is_smaller(words, input),
{
    let clean = text::without(word, ',');
    let last = clean[clean.len() - 1];
    let body = if number::is_signed(clean) {
        clean.skip(1)
    } else {
        clean
    };
    assert(number::is_digit(body[body.len() - 1]));
    lemma_without_from(word, ',');
    assert(word.contains(clean[clean.len() - 1]));
    let n = choose|n: int| 0 <= n < word.len() && word[n] == last;
    assert(input.contains(word[n]));
    let j = choose|j: int| 0 <= j < input.len() && input[j] == last;
    assert(number::is_digit(input[j]));
    assert forall|i: int| 0 <= i < words.len() implies !number::is_digit(#[trigger] words[i]) by {
        assert(number::is_word_char(words[i]));
    }
}

/// What is left when a character is taken out was there before.
proof fn lemma_without_from(s: Seq<char>, c: char)
    ensures
        forall|k: int|
            0 <= k < text::without(s, c).len() ==> s.contains(#[trigger] text::without(s, c)[k]),
    decreases s.len(),
{
    if s.len() == 0 {
        reveal(Seq::filter);
    } else {
        let t = s.drop_last();
        assert(s =~= t.push(s.last()));
        text::lemma_without_push(t, c, s.last());
        lemma_without_from(t, c);
        assert forall|k: int| 0 <= k < text::without(s, c).len() implies s.contains(
            #[trigger] text::without(s, c)[k],
        ) by {
            if k < text::without(t, c).len() {
                assert(text::without(s, c)[k] == text::without(t, c)[k]);
                let i = choose|i: int| 0 <= i < t.len() && t[i] == text::without(t, c)[k];
                assert(s[i] == t[i]);
            } else {
                assert(text::without(s, c)[k] == s[s.len() - 1]);
            }
        }
    }
}

/// A plain character is a smaller task than an accented one.
proof fn lemma_normalized_smaller(word: Seq<char>, input: Seq<char>)
    requires
        is_within(word, input),
        word.len() <= 1,
        sounds::normalized(word) != word,
    ensures
        outcome::is_smaller(sounds::normalized(word), input),
{
    let plain = sounds::normalized(word);
    if word.len() == 0 {
        assert(plain =~= word);
    }
    assert(plain[0] == sounds::base_char(word[0]));
    if plain[0] == word[0] {
        assert(plain =~= word);
    }
    assert(input.contains(word[0]));
    let j = choose|j: int| 0 <= j < input.len() && input[j] == word[0];
    assert(sounds::base_char(input[j]) != input[j]);
}

/// What is read of a token depends on nothing but the token, apart from its phonemes, and on
/// the token behind it.
proof fn lemma_token_outcome_local(
    g: G2P,
    input: Seq<char>,
    base: Seq<Token>,
    a: Seq<Token>,
    b: Seq<Token>,
    k: int,
)
    requires
        a.len() == b.len(),
        0 <= k < a.len(),
        b[k] == (Token { phonemes: b[k].phonemes, ..a[k] }),
        k + 1 < a.len() ==> a[k + 1] == b[k + 1],
    ensures
        forall|r| #[trigger]
            g.token_outcome(input, base, a, k, r) == g.token_outcome(input, base, b, k, r),
{
}

/// Whether the tokens of a text have their tags, and those from `i` on their phonemes.
spec fn is_read_from(
    g: G2P,
    input: Seq<char>,
    tags: Seq<Seq<char>>,
    tokens: Seq<Token>,
    i: int,
) -> bool {
    let base = outcome::marked_tokens(input);
    &&& g.may_tag(outcome::texts_of(base), tags)
    &&& outcome::same_but_phonemes(outcome::with_tags(base, tags), tokens)
    &&& forall|k: int|
        0 <= k < i && k < tokens.len() ==> (#[trigger] tokens[k]).phonemes == base[k].phonemes
    &&& g.reads_from(input, base, tokens, i)
}

/// Reading one more token.
proof fn lemma_read_next(
    g: G2P,
    input: Seq<char>,
    base: Seq<Token>,
    before: Seq<Token>,
    after: Seq<Token>,
    i: int,
    said: Seq<char>,
)
    requires
        0 <= i < before.len(),
        after == before.update(i, Token { phonemes: Some(said), ..before[i] }),
        g.is_tagged(base, after),
        g.reads_from(input, base, before, i + 1),
        g.token_outcome(input, base, before, i, Ok(said)),
    ensures
        g.reads_from(input, base, after, i),
{
    assert forall|k: int| i <= k < after.len() && 0 <= k implies (
    #[trigger] after[k]).phonemes is Some && g.token_outcome(
        input,
        base,
        after,
        k,
        Ok(after[k].phonemes->0),
    ) by {
        lemma_token_outcome_local(g, input, base, before, after, k);
        if k > i {
            assert(after[k] == before[k]);
        }
    }
}

/// Gives a token its pronunciation.
fn set_phonemes(t: &mut MToken, ps: String)
    ensures
        final(t)@ == (Token { phonemes: Some(ps@), ..old(t)@ }),
{
    t.phonemes = Some(ps);
}

/// Gives a token its tag.
fn set_tag(t: &mut MToken, tag: String)
    ensures
        final(t)@ == (Token { tag: tag@, ..old(t)@ }),
{
    t.tag = tag;
}

/// The texts of tokens.
fn texts(tokens: &Vec<MToken>) -> (r: Vec<String>)
    ensures
        text::views(r@) == outcome::texts_of(token::token_views(tokens@)),
{
    let mut r: Vec<String> = Vec::new();
    let mut i: usize = 0;
    while i < tokens.len()
        invariant
            i <= tokens@.len(),
            r@.len() == i,
            forall|k: int| 0 <= k < i ==> (#[trigger] r@[k])@ == tokens@[k].text@,
        decreases tokens@.len() - i,
    {
        r.push(tokens[i].text.clone());
        i = i + 1;
    }
    assert(text::views(r@) =~= outcome::texts_of(token::token_views(tokens@)));
    r
}

/// Gives tokens their tags, as far as those reach.
fn set_tags(tokens: &mut Vec<MToken>, tags: &Vec<String>)
    ensures
        token::token_views(final(tokens)@) == outcome::with_tags(
            token::token_views(old(tokens)@),
            text::views(tags@),
        ),
{
    let ghost start = token::token_views(tokens@);
    let ghost wanted = outcome::with_tags(start, text::views(tags@));
    let n: usize = tokens.len();
    let mut i: usize = 0;
    while i < n && i < tags.len()
        invariant
            i <= n,
            i <= tags@.len(),
            n == tokens@.len(),
            n == start.len(),
            wanted == outcome::with_tags(start, text::views(tags@)),
            forall|k: int| 0 <= k < i ==> (#[trigger] tokens@[k])@ == wanted[k],
            forall|k: int| i <= k < n ==> (#[trigger] tokens@[k])@ == start[k],
        decreases n - i,
    {
        let ghost before = tokens@;
        set_tag(&mut tokens[i], tags[i].clone());
        assert(forall|k: int| 0 <= k < n && k != i ==> tokens@[k] == before[k]);
        i = i + 1;
    }
    assert(token::token_views(tokens@) =~= wanted);
}

/// Puts the phonemes of tokens one behind the other.
fn speak_tokens(tokens: &Vec<MToken>) -> (r: String)
    ensures
        r@ == outcome::spoken_text(token::token_views(tokens@)),
{
    let ghost all = token::token_views(tokens@);
    let mut r = String::new();
    let mut i: usize = 0;
    while i < tokens.len()
        invariant
            i <= tokens@.len(),
            all == token::token_views(tokens@),
            r@ == outcome::spoken_text(all.take(i as int)),
        decreases tokens@.len() - i,
    {
        let t = &tokens[i];
        if let Some(ps) = &t.phonemes {
            r.append(ps.as_str());
        }
        r.append(t.whitespace.as_str());
        proof {
            assert(all.take(i + 1).drop_last() =~= all.take(i as int));
            assert(all.take(i + 1).last() == t@);
            if t.phonemes is None {
                let done = outcome::spoken_text(all.take(i as int));
                assert(done + Seq::<char>::empty() =~= done);
            }
        }
        i = i + 1;
    }
    assert(all.take(tokens@.len() as int) =~= all);
    r
}

impl G2P {
    /// The stress of a token: what markup asks for, else that of its casing.
    fn find_stress(&self, t: &MToken) -> (r: Option<Stress>)
        ensures
            r == self.stress_for(t@),
    {
        if let Some(s) = t.underscore().stress {
            return Some(s);
        }
        let word = t.text.as_str();
        let lower = unicode::to_lowercase(word);
        if text::same(word, lower.as_str()) {
            return None;
        }
        let upper = unicode::to_uppercase(word);
        if text::same(word, upper.as_str()) {
            Some(self.lexicon.cap_stresses.1)
        } else {
            Some(self.lexicon.cap_stresses.0)
        }
    }

    /// Reads a text: its phonemes, and its tokens with theirs.
    pub fn g2p(&self, input: &str) -> (r: Result<(String, Vec<MToken>), G2PError>)
        ensures
            self.outcome(input@, outcome::g2p_view(r)),
            !self.has_fallback() ==> r is Ok,
        decreases
            outcome::digit_rank(input@),
            input@.len(),
            outcome::accent_rank(input@),
            7nat,
    {
        let (plain, markers) = self.preprocess_links(input);
        let pairs = self.tokenize_with_offsets(plain.as_str());
        let ghost spans = tokenize::token_spans(plain@);
        let ghost all = pairs@;
        let (mut tokens, ranges) = unzip(pairs);
        proof {
            assert forall|k: int| 0 <= k < spans.len() implies tokens@[k]@
                == #[trigger] tokenize::raw_tokens(plain@)[k] by {
                assert(tokenize::is_spanned(all[k], plain@, spans[k]));
            }
            assert forall|k: int| 0 <= k < spans.len() implies (
                ranges@[k].start as int,
                ranges@[k].end as int,
            ) == #[trigger] outcome::byte_ranges(plain@)[k] by {
                assert(tokenize::is_spanned(all[k], plain@, spans[k]));
            }
            assert(token::token_views(tokens@) =~= tokenize::raw_tokens(plain@));
            assert(marks::range_views(ranges@) =~= outcome::byte_ranges(plain@));
        }
        marks::apply_markers(&mut tokens, &ranges, &markers);
        let ghost base = outcome::marked_tokens(input@);
        assert(token::token_views(tokens@) == base);
        proof {
            lemma_tokens_within(input@);
        }
        let words = texts(&tokens);
        let tags = self.ask_tagger(&words);
        set_tags(&mut tokens, &tags);
        match self.read_tokens(&mut tokens, Ghost(input@), Ghost(text::views(tags@))) {
            Ok(()) => {
                let out = speak_tokens(&tokens);
                Ok((out, tokens))
            },
            Err(G2PError::Fallback(e)) => {
                proof {
                    if !self.has_fallback() {
                        laws::reading::law_without_fallback_nothing_fails(*self, input@, e);
                    }
                }
                Err(G2PError::Fallback(e))
            },
        }
    }

    /// Reads tokens from the last to the first.
    fn read_tokens(
        &self,
        tokens: &mut Vec<MToken>,
        Ghost(input): Ghost<Seq<char>>,
        Ghost(tags): Ghost<Seq<Seq<char>>>,
    ) -> (r: Result<(), G2PError>)
        requires
            self.may_tag(outcome::texts_of(outcome::marked_tokens(input)), tags),
            token::token_views(old(tokens)@) == outcome::with_tags(
                outcome::marked_tokens(input),
                tags,
            ),
            forall|k: int|
                0 <= k < outcome::marked_tokens(input).len() ==> is_within(
                    (#[trigger] outcome::marked_tokens(input)[k]).text,
                    input,
                ),
        ensures
            r is Ok ==> self.reads_from(
                input,
                outcome::marked_tokens(input),
                token::token_views(final(tokens)@),
                0,
            ),
            r matches Err(G2PError::Fallback(e)) ==> self.outcome(input, Err(e)),
        decreases outcome::digit_rank(input), input.len(), outcome::accent_rank(input), 6nat,
    {
        assert(tokens@.len() == token::token_views(tokens@).len());
        let n: usize = tokens.len();
        let mut i: usize = n;
        while i > 0
            invariant
                i <= n,
                n == tokens@.len(),
                is_read_from(*self, input, tags, token::token_views(tokens@), i as int),
                forall|k: int|
                    0 <= k < outcome::marked_tokens(input).len() ==> is_within(
                        (#[trigger] outcome::marked_tokens(input)[k]).text,
                        input,
                    ),
            decreases i,
        {
            i = i - 1;
            match self.read_token(tokens, i, Ghost(input), Ghost(tags)) {
                Ok(()) => {},
                Err(e) => {
                    return Err(e);
                },
            }
        }
        Ok(())
    }

    /// Reads one token, those behind it being read.
    fn read_token(
        &self,
        tokens: &mut Vec<MToken>,
        i: usize,
        Ghost(input): Ghost<Seq<char>>,
        Ghost(tags): Ghost<Seq<Seq<char>>>,
    ) -> (r: Result<(), G2PError>)
        requires
            i < old(tokens)@.len(),
            is_read_from(*self, input, tags, token::token_views(old(tokens)@), i + 1),
            is_within(outcome::marked_tokens(input)[i as int].text, input),
        ensures
            final(tokens)@.len() == old(tokens)@.len(),
            r is Ok ==> is_read_from(
                *self,
                input,
                tags,
                token::token_views(final(tokens)@),
                i as int,
            ),
            r matches Err(G2PError::Fallback(e)) ==> self.outcome(input, Err(e)),
        decreases outcome::digit_rank(input), input.len(), outcome::accent_rank(input), 5nat,
    {
        let ghost base = outcome::marked_tokens(input);
        let ghost before = token::token_views(tokens@);
        let n: usize = tokens.len();
        let ctx = if i + 1 < n {
            sounds::look_ahead(&tokens[i + 1])
        } else {
            TokenContext { future_vowel: None, future_to: false }
        };
        assert(before[i as int] == tokens@[i as int]@);
        assert(ctx == sounds::context_of(before, i as int));
        if tokens[i].phonemes.is_some() {
            return Ok(());
        }
        let stress = self.find_stress(&tokens[i]);
        let word = tokens[i].text.as_str();
        let tag = tokens[i].tag.as_str();
        match self.read_word(word, tag, stress, &ctx, Ghost(input)) {
            Ok(ps) => {
                let ghost said = ps@;
                assert(self.token_outcome(input, base, before, i as int, Ok(said)));
                set_phonemes(&mut tokens[i], ps);
                proof {
                    let after = token::token_views(tokens@);
                    assert(after =~= before.update(
                        i as int,
                        Token { phonemes: Some(said), ..before[i as int] },
                    ));
                    assert(outcome::same_but_phonemes(outcome::with_tags(base, tags), after));
                    lemma_read_next(*self, input, base, before, after, i as int, said);
                }
                Ok(())
            },
            Err(G2PError::Fallback(e)) => {
                assert(self.token_outcome(input, base, before, i as int, Err(e)));
                assert(base[i as int].phonemes is None);
                Err(G2PError::Fallback(e))
            },
        }
    }

    /// Reads a word of a text.
    fn read_word(
        &self,
        word: &str,
        tag: &str,
        stress: Option<Stress>,
        ctx: &TokenContext,
        Ghost(input): Ghost<Seq<char>>,
    ) -> (r: Result<String, G2PError>)
        requires
            is_within(word@, input),
        ensures
            self.word_outcome(input, word@, tag@, stress, *ctx, outcome::word_view(r)),
        decreases outcome::digit_rank(input), input.len(), outcome::accent_rank(input), 4nat,
    {
        let known = match self.lexicon.get_word(word, tag, stress, Some(ctx)) {
            Some((ps, _)) => Some(ps),
            None => None,
        };
        let first = Step::from_lexicon(word, known);
        let ghost heard = self.lexicon_answer(word@, tag@, stress, *ctx);
        assert(first@ == steps::after_lexicon(word@, heard));
        match first {
            Step::AskRules => {},
            step => {
                proof {
                    if step is ReadParts {
                        lemma_hyphen_parts_smaller(word@, input);
                    } else if step is ReadInstead {
                        lemma_spoken_smaller(word@, number::spoken(word@), input);
                    }
                }
                return self.take_step(step, Ghost(input));
            },
        }
        let answer = self.ask_rules(word, tag);
        let ghost ruled = token::phoneme_view(answer);
        let second = Step::from_rules(word, self.unk.as_str(), answer);
        match second {
            Step::AskFallback => {},
            step => {
                proof {
                    if step is ReadInstead {
                        lemma_normalized_smaller(word@, input);
                    }
                }
                return self.take_step(step, Ghost(input));
            },
        }
        let reply = self.ask_fallback(word);
        let ghost replied = steps::reply_view(reply);
        assert(self.may_reply(word@, replied));
        let third = Step::from_fallback(word, reply);
        proof {
            lemma_letters_smaller(word@, input);
        }
        self.take_step(third, Ghost(input))
    }

    /// Takes a step that asks nobody.
    fn take_step(&self, step: Step, Ghost(input): Ghost<Seq<char>>) -> (r: Result<
        String,
        G2PError,
    >)
        requires
            match step@ {
                steps::Move::ReadParts(parts) => forall|k: int|
                    0 <= k < parts.len() ==> outcome::is_smaller(#[trigger] parts[k], input),
                steps::Move::ReadInstead(s) => outcome::is_smaller(s, input),
                steps::Move::AskRules => false,
                steps::Move::AskFallback => false,
                _ => true,
            },
        ensures
            self.move_outcome(input, step@, outcome::word_view(r)),
        decreases outcome::digit_rank(input), input.len(), outcome::accent_rank(input), 3nat,
    {
        let ghost taken = step@;
        match step {
            Step::Say(ps) => Ok(ps),
            Step::Fail(e) => Err(G2PError::Fallback(e)),
            Step::ReadParts(parts) => {
                assert forall|k: int| 0 <= k < text::views(parts@).len() implies outcome::is_smaller(
                    #[trigger] text::views(parts@)[k],
                    input,
                ) by {
                    assert(taken matches steps::Move::ReadParts(p) && p == text::views(parts@));
                }
                self.read_list(&parts, Ghost(input))
            },
            Step::ReadInstead(s) => self.read_sub(s.as_str(), Ghost(input)),
            _ => Ok(String::new()),
        }
    }

    /// Reads a list of texts, and puts spaces between their pronunciations.
    fn read_list(&self, items: &Vec<String>, Ghost(input): Ghost<Seq<char>>) -> (r: Result<
        String,
        G2PError,
    >)
        requires
            forall|k: int|
                0 <= k < text::views(items@).len() ==> outcome::is_smaller(
                    #[trigger] text::views(items@)[k],
                    input,
                ),
        ensures
            self.list_outcome(input, text::views(items@), outcome::word_view(r)),
        decreases outcome::digit_rank(input), input.len(), outcome::accent_rank(input), 2nat,
    {
        let ghost all = text::views(items@);
        let mut subs: Vec<String> = Vec::new();
        let mut i: usize = 0;
        while i < items.len()
            invariant
                i <= items@.len(),
                all == text::views(items@),
                subs@.len() == i,
                self.list_reads(input, all, text::views(subs@)),
                forall|k: int|
                    0 <= k < all.len() ==> outcome::is_smaller(#[trigger] all[k], input),
            decreases items@.len() - i,
        {
            assert(outcome::is_smaller(all[i as int], input));
            match self.read_sub(items[i].as_str(), Ghost(input)) {
                Ok(ps) => {
                    proof {
                        text::lemma_views_push(subs@, ps);
                    }
                    subs.push(ps);
                },
                Err(G2PError::Fallback(e)) => {
                    assert(outcome::is_shorter(text::views(subs@), all));
                    return Err(G2PError::Fallback(e));
                },
            }
            i = i + 1;
        }
        let r = text::join(&subs, " ");
        Ok(r)
    }

    /// Reads a text as part of reading another.
    fn read_sub(&self, sub: &str, Ghost(input): Ghost<Seq<char>>) -> (r: Result<String, G2PError>)
        requires
            outcome::is_smaller(sub@, input),
        ensures
            self.sub_outcome(input, sub@, outcome::word_view(r)),
        decreases outcome::digit_rank(input), input.len(), outcome::accent_rank(input), 0nat,
    {
        match self.g2p(sub) {
            Ok((out, tokens)) => {
                assert(self.outcome(sub@, Ok((out@, token::token_views(tokens@)))));
                Ok(out)
            },
            Err(e) => Err(e),
        }
    }
}

} // verus!
