//! What is done about a word, given the answers that have come.

use crate::fallback::FallbackError;
use crate::laws;
use crate::number;
use crate::sounds;
use crate::steps;
use crate::text;
use vstd::prelude::*;

verus! {

/// What the lexicon answers is said.
pub proof fn law_lexicon_is_believed(word: Seq<char>, ps: Seq<char>)
    ensures
        steps::after_lexicon(word, Some(ps)) == steps::Move::Say(ps),
{
}

/// A word that the lexicon does not know and that writes a number is read as the number's
/// words, unless it is these words already.
pub proof fn law_number_goes_to_its_words(word: Seq<char>, sign: Seq<char>, digits: Seq<char>)
    requires
        laws::numbers::may_sign(sign),
        laws::numbers::is_written(digits),
        word.filter(|c: char| c != ',') == sign + digits,
        i64::MIN <= laws::numbers::signed_value(sign, digits) <= i64::MAX,
        number::number_words(laws::numbers::signed_value(sign, digits) as i64) != word,
    ensures
        steps::after_lexicon(word, None) == steps::Move::ReadInstead(
            number::number_words(laws::numbers::signed_value(sign, digits) as i64),
        ),
{
    laws::numbers::law_digits_write_their_value(word, sign, digits);
}

/// Any other word that the lexicon does not know is taken apart if it holds a hyphen and
/// anything else; if not, the rules are asked.
pub proof fn law_word_goes_to_its_parts_or_the_rules(word: Seq<char>)
    requires
        number::number_in(word) is None,
    ensures
        word.contains('-') && word.len() > 1 ==> steps::after_lexicon(word, None)
            == steps::Move::ReadParts(steps::hyphen_parts(word)),
        !word.contains('-') || word.len() == 1 ==> steps::after_lexicon(word, None)
            == steps::Move::AskRules,
{
    text::lemma_utf8_len_chars(word);
    if word.contains('-') && word.len() == 1 {
        let i = choose|i: int| 0 <= i < word.len() && word[i] == '-';
        assert(word[0] == '-');
    }
}

/// A hyphen parts what stands before it from what stands behind it, and what holds no hyphen
/// is one part, unless there is nothing.
pub proof fn law_hyphens_part(a: Seq<char>, b: Seq<char>)
    ensures
        steps::hyphen_parts(a + seq!['-'] + b) == steps::hyphen_parts(a) + steps::hyphen_parts(b),
        steps::hyphen_parts(Seq::empty()) == Seq::<Seq<char>>::empty(),
        a.len() > 0 && !a.contains('-') ==> steps::hyphen_parts(a) == seq![a],
{
    lemma_split_at(a, b, '-');
    Seq::filter_distributes_over_add(
        text::split(a, '-'),
        text::split(b, '-'),
        |p: Seq<char>| p.len() > 0,
    );
    lemma_kept(Seq::<char>::empty());
    assert(text::split(Seq::<char>::empty(), '-') =~= seq![Seq::<char>::empty()]);
    if a.len() > 0 && !a.contains('-') {
        lemma_split_none(a, '-');
        lemma_kept(a);
    }
}

proof fn lemma_kept(p: Seq<char>)
    ensures
        seq![p].filter(|p: Seq<char>| p.len() > 0) == (if p.len() > 0 {
            seq![p]
        } else {
            Seq::<Seq<char>>::empty()
        }),
{
    reveal(Seq::filter);
    assert(seq![p].drop_last() =~= Seq::<Seq<char>>::empty());
    assert(Seq::<Seq<char>>::empty().push(p) =~= seq![p]);
    let keep = |p: Seq<char>| p.len() > 0;
    assert(Seq::<Seq<char>>::empty().filter(keep) =~= Seq::<Seq<char>>::empty());
    assert(seq![p].filter(keep) =~= (if p.len() > 0 {
        seq![p]
    } else {
        Seq::<Seq<char>>::empty()
    }));
}

proof fn lemma_split_none(a: Seq<char>, c: char)
    requires
        !a.contains(c),
    ensures
        text::split(a, c) == seq![a],
    decreases a.len(),
{
    if a.len() > 0 {
        let t = a.drop_last();
        assert forall|i: int| 0 <= i < t.len() implies t[i] != c by {
            assert(a[i] == t[i]);
        }
        assert(!t.contains(c));
        lemma_split_none(t, c);
        assert(a[a.len() - 1] == a.last());
        assert(t.push(a.last()) =~= a);
        assert(seq![t].drop_last().push(a) =~= seq![a]);
    } else {
        assert(a =~= Seq::<char>::empty());
    }
}

proof fn lemma_split_at(a: Seq<char>, b: Seq<char>, c: char)
    ensures
        text::split(a + seq![c] + b, c) == text::split(a, c) + text::split(b, c),
        text::split(b, c).len() > 0,
    decreases b.len(),
{
    let s = a + seq![c] + b;
    if b.len() == 0 {
        assert(s.drop_last() =~= a);
        assert(s.last() == c);
        assert(text::split(a, c).push(Seq::<char>::empty()) =~= text::split(a, c) + text::split(
            b,
            c,
        ));
    } else {
        lemma_split_at(a, b.drop_last(), c);
        assert(s.drop_last() =~= a + seq![c] + b.drop_last());
        assert(s.last() == b.last());
        let x = text::split(a, c);
        let y = text::split(b.drop_last(), c);
        if b.last() == c {
            assert((x + y).push(Seq::<char>::empty()) =~= x + y.push(Seq::<char>::empty()));
        } else {
            let z = y.last().push(b.last());
            assert((x + y).last() == y.last());
            assert((x + y).drop_last().push(z) =~= x + y.drop_last().push(z));
        }
    }
}

/// What the rules answer is said.
pub proof fn law_rules_are_believed(word: Seq<char>, unk: Seq<char>, ps: Seq<char>)
    ensures
        steps::after_rules(word, unk, Some(ps)) == steps::Move::Say(ps),
{
}

/// Where the rules have no answer, a word of several characters goes to the fallback, and a
/// single character with a plain form other than itself is read in that form.
pub proof fn law_without_a_rule(word: Seq<char>, unk: Seq<char>)
    ensures
        word.len() > 1 ==> steps::after_rules(word, unk, None) == steps::Move::AskFallback,
        word.len() == 1 && sounds::base_char(word[0]) != word[0] ==> steps::after_rules(
            word,
            unk,
            None,
        ) == steps::Move::ReadInstead(seq![sounds::base_char(word[0])]),
        word.len() == 1 && sounds::base_char(word[0]) == word[0] ==> steps::after_rules(
            word,
            unk,
            None,
        ) == steps::Move::Say(sounds::symbol_sound(word, unk)),
{
    if word.len() == 1 {
        let plain = sounds::normalized(word);
        assert(plain[0] == sounds::base_char(word[0]));
        if sounds::base_char(word[0]) == word[0] {
            assert(plain =~= word);
        } else {
            assert(plain =~= seq![sounds::base_char(word[0])]);
        }
    }
}

/// What the fallback answers is said, its error is handed on, and where there is no fallback
/// the word is read character by character.
pub proof fn law_fallback_is_believed(word: Seq<char>, ps: Seq<char>, e: FallbackError, i: int)
    requires
        0 <= i < word.len(),
    ensures
        steps::after_fallback(word, Some(Ok(ps))) == steps::Move::Say(ps),
        steps::after_fallback(word, Some(Err(e))) == steps::Move::Fail(e),
        steps::after_fallback(word, None) matches steps::Move::ReadParts(parts) && parts.len()
            == word.len() && parts[i] == seq![word[i]],
{
}

} // verus!
