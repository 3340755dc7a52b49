//! What taking texts apart and putting them together do.

use crate::text;
use crate::tokenize;
use vstd::prelude::*;

verus! {

/// Taking a character out of a text takes it out of each part of the text, and leaves a part
/// that does not hold it as it is.
pub proof fn law_character_is_taken_out(a: Seq<char>, b: Seq<char>, c: char)
    ensures
        text::without(a + b, c) == text::without(a, c) + text::without(b, c),
        text::without(seq![c], c) == Seq::<char>::empty(),
        !text::without(a, c).contains(c),
        !a.contains(c) ==> text::without(a, c) == a,
    decreases a.len(),
{
    Seq::filter_distributes_over_add(a, b, |x: char| x != c);
    text::lemma_without_push(Seq::empty(), c, c);
    assert(Seq::<char>::empty().push(c) =~= seq![c]);
    reveal(Seq::filter);
    assert(text::without(Seq::<char>::empty(), c) =~= Seq::<char>::empty());
    if a.len() > 0 {
        let t = a.drop_last();
        law_character_is_taken_out(t, b, c);
        text::lemma_without_push(t, c, a.last());
        assert(t.push(a.last()) =~= a);
        assert(a[a.len() - 1] == a.last());
        if !a.contains(c) {
            assert forall|i: int| 0 <= i < t.len() implies t[i] != c by {
                assert(a[i] == t[i]);
            }
            assert(!t.contains(c));
        }
        let left = text::without(t, c);
        if a.last() != c {
            assert forall|i: int| 0 <= i < left.push(a.last()).len() implies left.push(
                a.last(),
            )[i] != c by {
                if i < left.len() {
                    assert(left.contains(left[i]));
                }
            }
        }
    }
}

/// Turning one character into another changes no other.
pub proof fn law_character_is_replaced(s: Seq<char>, from: char, to: char, i: int)
    requires
        0 <= i < s.len(),
    ensures
        text::replaced(s, from, to).len() == s.len(),
        s[i] == from ==> text::replaced(s, from, to)[i] == to,
        s[i] != from ==> text::replaced(s, from, to)[i] == s[i],
{
}

/// A text cut at a character is put together again by that character, and no piece holds it.
pub proof fn law_split_is_undone(s: Seq<char>, c: char)
    ensures
        text::joined(text::split(s, c), seq![c]) == s,
        text::split(s, c).len() > 0,
        forall|i: int|
            0 <= i < text::split(s, c).len() ==> !(#[trigger] text::split(s, c)[i]).contains(c),
    decreases s.len(),
{
    if s.len() > 0 {
        let t = s.drop_last();
        law_split_is_undone(t, c);
        let before = text::split(t, c);
        let after = text::split(s, c);
        assert(s =~= t.push(s.last()));
        if s.last() == c {
            assert(after.drop_last() =~= before);
            assert(text::joined(after, seq![c]) =~= t + seq![c] + Seq::<char>::empty());
            assert(t + seq![c] + Seq::<char>::empty() =~= s);
            assert(!Seq::<char>::empty().contains(c));
        } else {
            let x = s.last();
            let tail = before.last();
            assert(after.drop_last() =~= before.drop_last());
            assert(after.last() == tail.push(x));
            assert(before[before.len() - 1] == tail);
            assert(!tail.push(x).contains(c)) by {
                assert forall|i: int| 0 <= i < tail.push(x).len() implies tail.push(x)[i] != c by {
                    if i < tail.len() {
                        assert(tail.contains(tail[i]));
                    }
                }
            }
            if before.len() == 1 {
                assert(text::joined(after, seq![c]) =~= tail.push(x));
            } else {
                let front = text::joined(before.drop_last(), seq![c]);
                assert(front + seq![c] + tail.push(x) =~= (front + seq![c] + tail).push(x));
            }
            assert forall|i: int| 0 <= i < after.len() implies !(#[trigger] after[i]).contains(
                c,
            ) by {
                if i < after.len() - 1 {
                    assert(after[i] == before[i]);
                }
            }
        }
    }
}

/// Texts are put together in their order, with the separator between each two and nowhere
/// else.
pub proof fn law_joined_in_order(
    a: Seq<Seq<char>>,
    b: Seq<Seq<char>>,
    piece: Seq<char>,
    sep: Seq<char>,
)
    ensures
        text::joined(Seq::empty(), sep) == Seq::<char>::empty(),
        text::joined(seq![piece], sep) == piece,
        a.len() > 0 && b.len() > 0 ==> text::joined(a + b, sep) == text::joined(a, sep) + sep
            + text::joined(b, sep),
    decreases b.len(),
{
    if a.len() > 0 && b.len() > 0 {
        assert((a + b).drop_last() =~= a + b.drop_last());
        assert((a + b).last() == b.last());
        if b.len() == 1 {
            assert(a + b.drop_last() =~= a);
        } else {
            law_joined_in_order(a, b.drop_last(), piece, sep);
            let x = text::joined(a, sep);
            let y = text::joined(b.drop_last(), sep);
            assert((x + sep + y) + sep + b.last() =~= x + sep + (y + sep + b.last()));
        }
    }
}

/// Whether a span is a run without white space that is as long as can be.
pub open spec fn is_longest_run(s: Seq<char>, span: (int, int)) -> bool {
    &&& 0 <= span.0 < span.1 <= s.len()
    &&& forall|i: int| span.0 <= i < span.1 ==> !text::is_space(#[trigger] s[i])
    &&& span.0 == 0 || text::is_space(s[span.0 - 1])
    &&& span.1 == s.len() || text::is_space(s[span.1])
}

/// The words of a text are its longest runs without white space, each of them, in order.
pub proof fn law_words_are_longest_runs(s: Seq<char>)
    ensures
        forall|n: int|
            0 <= n < tokenize::word_spans(s).len() ==> is_longest_run(
                s,
                #[trigger] tokenize::word_spans(s)[n],
            ),
        forall|n: int, m: int|
            0 <= n < m < tokenize::word_spans(s).len() ==> (#[trigger] tokenize::word_spans(
                s,
            )[n]).1 < (#[trigger] tokenize::word_spans(s)[m]).0,
        forall|i: int|
            0 <= i < s.len() && !text::is_space(#[trigger] s[i]) ==> exists|n: int|
                0 <= n < tokenize::word_spans(s).len() && (#[trigger] tokenize::word_spans(s)[n]).0
                    <= i < tokenize::word_spans(s)[n].1,
{
    lemma_runs(s, 0);
    let words = tokenize::word_spans(s);
    assert forall|i: int| 0 <= i < s.len() && !text::is_space(#[trigger] s[i]) implies exists|
        n: int,
    |
        0 <= n < words.len() && (#[trigger] words[n]).0 <= i < words[n].1 by {
        let n = choose|n: int|
            0 <= n < tokenize::runs_from(s, 0).len() && (#[trigger] tokenize::runs_from(s, 0)[n]).0
                <= i < tokenize::runs_from(s, 0)[n].1;
        assert(words[n].0 <= i < words[n].1);
    }
}

proof fn lemma_run_stops(s: Seq<char>, i: int)
    requires
        0 <= i <= s.len(),
    ensures
        i <= text::run_end(s, i) <= s.len(),
        text::run_end(s, i) < s.len() ==> text::is_space(s[text::run_end(s, i)]),
        forall|k: int| i <= k < text::run_end(s, i) ==> !text::is_space(#[trigger] s[k]),
    decreases s.len() - i,
{
    if i < s.len() && !text::is_space(s[i]) {
        lemma_run_stops(s, i + 1);
    }
}

proof fn lemma_runs(s: Seq<char>, i: int)
    requires
        0 <= i <= s.len(),
        i == 0 || i == s.len() || text::is_space(s[i - 1]) || text::is_space(s[i]),
    ensures
        forall|n: int|
            0 <= n < tokenize::runs_from(s, i).len() ==> is_longest_run(
                s,
                #[trigger] tokenize::runs_from(s, i)[n],
            ) && tokenize::runs_from(s, i)[n].0 >= i,
        forall|n: int, m: int|
            0 <= n < m < tokenize::runs_from(s, i).len() ==> (#[trigger] tokenize::runs_from(
                s,
                i,
            )[n]).1 < (#[trigger] tokenize::runs_from(s, i)[m]).0,
        forall|k: int|
            i <= k < s.len() && !text::is_space(#[trigger] s[k]) ==> exists|n: int|
                0 <= n < tokenize::runs_from(s, i).len()
                    && (#[trigger] tokenize::runs_from(s, i)[n]).0
                    <= k < tokenize::runs_from(s, i)[n].1,
    decreases s.len() - i,
{
    let runs = tokenize::runs_from(s, i);
    if i < s.len() && text::is_space(s[i]) {
        lemma_runs(s, i + 1);
        assert(runs == tokenize::runs_from(s, i + 1));
    } else if i < s.len() {
        lemma_run_stops(s, i);
        let end = text::run_end(s, i);
        assert(end > i);
        let rest = tokenize::runs_from(s, end);
        lemma_runs(s, end);
        assert(runs == seq![(i, end)] + rest);
        assert(runs[0] == (i, end));
        assert forall|n: int| 0 <= n < runs.len() implies is_longest_run(s, #[trigger] runs[n])
            && runs[n].0 >= i by {
            if n > 0 {
                assert(runs[n] == rest[n - 1]);
            }
        }
        assert forall|n: int, m: int| 0 <= n < m < runs.len() implies (#[trigger] runs[n]).1 < (
        #[trigger] runs[m]).0 by {
            assert(runs[m] == rest[m - 1]);
            if n > 0 {
                assert(runs[n] == rest[n - 1]);
            } else {
                assert(is_longest_run(s, rest[m - 1]));
                if rest[m - 1].0 == end {
                    assert(text::is_space(s[end]));
                }
            }
        }
        assert forall|k: int| i <= k < s.len() && !text::is_space(#[trigger] s[k]) implies exists|
            n: int,
        |
            0 <= n < runs.len() && (#[trigger] runs[n]).0 <= k < runs[n].1 by {
            if k < end {
                assert(runs[0].0 <= k < runs[0].1);
            } else {
                let n = choose|n: int|
                    0 <= n < rest.len() && (#[trigger] rest[n]).0 <= k < rest[n].1;
                assert(runs[n + 1] == rest[n]);
            }
        }
    } else {
        assert(runs.len() == 0);
    }
}

/// The words that a text is cut into are those runs, by their characters.
pub proof fn law_words_are_runs(s: Seq<char>)
    ensures
        text::words_from(s, 0).len() == tokenize::word_spans(s).len(),
        forall|n: int|
            0 <= n < tokenize::word_spans(s).len() ==> #[trigger] text::words_from(s, 0)[n]
                == s.subrange(tokenize::word_spans(s)[n].0, tokenize::word_spans(s)[n].1),
{
    lemma_words(s, 0);
}

proof fn lemma_words(s: Seq<char>, i: int)
    requires
        0 <= i <= s.len(),
    ensures
        text::words_from(s, i).len() == tokenize::runs_from(s, i).len(),
        forall|n: int|
            0 <= n < tokenize::runs_from(s, i).len() ==> #[trigger] text::words_from(s, i)[n]
                == s.subrange(tokenize::runs_from(s, i)[n].0, tokenize::runs_from(s, i)[n].1),
    decreases s.len() - i,
{
    if i < s.len() && text::is_space(s[i]) {
        lemma_words(s, i + 1);
    } else if i < s.len() {
        lemma_run_stops(s, i);
        let end = text::run_end(s, i);
        assert(end > i);
        lemma_words(s, end);
        let words = text::words_from(s, i);
        let runs = tokenize::runs_from(s, i);
        assert(words == seq![s.subrange(i, end)] + text::words_from(s, end));
        assert(runs == seq![(i, end)] + tokenize::runs_from(s, end));
        assert forall|n: int| 0 <= n < runs.len() implies #[trigger] words[n] == s.subrange(
            runs[n].0,
            runs[n].1,
        ) by {
            if n > 0 {
                assert(words[n] == text::words_from(s, end)[n - 1]);
                assert(runs[n] == tokenize::runs_from(s, end)[n - 1]);
            }
        }
    }
}

/// How many tokens the first `n` of some words are cut into: as many as each has pieces, and
/// one for a word without pieces.
pub open spec fn tokens_before(s: Seq<char>, words: Seq<(int, int)>, n: int) -> int
    decreases n,
{
    if n <= 0 {
        0
    } else {
        let m = tokenize::piece_spans(s.subrange(words[n - 1].0, words[n - 1].1)).len() as int;
        tokens_before(s, words, n - 1) + (if m == 0 {
            1
        } else {
            m
        })
    }
}

/// The tokens of a text are those of its words, one word behind the other: the pieces of the
/// word, each where it stands in the text, or the word itself where it has none.
pub proof fn law_tokens_are_the_pieces_of_words(s: Seq<char>, n: int, j: int)
    requires
        0 <= n < tokenize::word_spans(s).len(),
        0 <= j,
    ensures
        ({
            let words = tokenize::word_spans(s);
            let word = words[n];
            let pieces = tokenize::piece_spans(s.subrange(word.0, word.1));
            let at = tokens_before(s, words, n);
            &&& tokenize::token_spans(s).len() == tokens_before(s, words, words.len() as int)
            &&& j < pieces.len() ==> tokenize::token_spans(s)[at + j] == (
                word.0 + pieces[j].0,
                word.0 + pieces[j].1,
            )
            &&& pieces.len() == 0 ==> tokenize::token_spans(s)[at] == word
        }),
{
    lemma_tokens(s, tokenize::word_spans(s), n, j);
}

proof fn lemma_tokens(s: Seq<char>, words: Seq<(int, int)>, n: int, j: int)
    requires
        0 <= n < words.len(),
        0 <= j,
    ensures
        ({
            let pieces = tokenize::piece_spans(s.subrange(words[n].0, words[n].1));
            let at = tokens_before(s, words, n);
            &&& tokenize::cut_all(s, words).len() == tokens_before(s, words, words.len() as int)
            &&& 0 <= at
            &&& j < pieces.len() ==> tokenize::cut_all(s, words)[at + j] == (
                words[n].0 + pieces[j].0,
                words[n].0 + pieces[j].1,
            ) && at + j < tokenize::cut_all(s, words).len()
            &&& pieces.len() == 0 ==> tokenize::cut_all(s, words)[at] == words[n] && at
                < tokenize::cut_all(s, words).len()
        }),
    decreases words.len(),
{
    let rest = words.drop_last();
    let m = words.len() - 1;
    let last = words[m];
    lemma_same_words(s, words, rest, m);
    if n < m {
        lemma_tokens(s, rest, n, j);
        assert(rest[n] == words[n]);
        lemma_same_words(s, words, rest, n);
    } else if m > 0 {
        lemma_tokens(s, rest, 0, 0);
    }
    let before = tokenize::cut_all(s, rest);
    let added = tokenize::cut(last, tokenize::piece_spans(s.subrange(last.0, last.1)));
    assert(tokenize::cut_all(s, words) == before + added);
}

proof fn lemma_same_words(s: Seq<char>, a: Seq<(int, int)>, b: Seq<(int, int)>, n: int)
    requires
        0 <= n <= a.len(),
        n <= b.len(),
        forall|i: int| 0 <= i < n ==> #[trigger] a[i] == b[i],
    ensures
        tokens_before(s, a, n) == tokens_before(s, b, n),
        tokens_before(s, a, n) >= 0,
    decreases n,
{
    if n > 0 {
        lemma_same_words(s, a, b, n - 1);
        assert(a[n - 1] == b[n - 1]);
    }
}

/// A token starts as its text with the tag NN, a space behind it, and nothing else.
pub proof fn law_fresh_tokens(s: Seq<char>, k: int)
    requires
        0 <= k < tokenize::token_spans(s).len(),
    ensures
        ({
            let t = tokenize::raw_tokens(s)[k];
            let span = tokenize::token_spans(s)[k];
            &&& tokenize::raw_tokens(s).len() == tokenize::token_spans(s).len()
            &&& t.text == s.subrange(span.0, span.1)
            &&& t.tag == seq!['N', 'N']
            &&& t.whitespace == seq![' ']
            &&& t.phonemes is None
            &&& t.stress is None
            &&& t.num_flags == Seq::<char>::empty()
        }),
{
    reveal_strlit("NN");
    reveal_strlit(" ");
    assert("NN"@ =~= seq!['N', 'N']);
    assert(" "@ =~= seq![' ']);
}

} // verus!
