//! Which words are known, and what is looked up for them.

use crate::laws;
use crate::lexicon;
use crate::lexicon::{Lexicon, PhonemeEntry, TokenContext};
use crate::stem;
use crate::stress;
use crate::stress::Stress;
use crate::text;
use crate::unicode;
use crate::words;
use vstd::prelude::*;

verus! {

/// A word is capitalized by putting its first character in upper case.
pub proof fn law_capitalizing(c: char, rest: Seq<char>)
    ensures
        lexicon::capitalized(seq![c] + rest) == unicode::char_uppercase(c) + rest,
        lexicon::capitalized(Seq::empty()) == Seq::<char>::empty(),
{
    assert((seq![c] + rest).skip(1) =~= rest);
}

/// A table has nothing for a word if it holds neither the word nor its lower case nor that
/// capitalized.
pub proof fn law_no_casing_no_entry(table: Map<Seq<char>, PhonemeEntry>, word: Seq<char>)
    requires
        !table.contains_key(word),
        !table.contains_key(unicode::lowercase(word)),
        unicode::lowercase(word).len() > 0 ==> !table.contains_key(
            unicode::char_uppercase(unicode::lowercase(word)[0]) + unicode::lowercase(word).skip(1),
        ),
    ensures
        lexicon::entry_of(table, word) is None,
{
}

/// What a table has for a word, a tag and a context.
pub open spec fn found(
    table: Map<Seq<char>, PhonemeEntry>,
    word: Seq<char>,
    tag: Seq<char>,
    ctx: Option<&TokenContext>,
) -> Option<Seq<char>> {
    match lexicon::entry_of(table, word) {
        Some(e) => lexicon::resolved(e, tag, ctx),
        None => None,
    }
}

/// A word that is not all in capitals, or that the certain entries answer for, is looked up as
/// it stands: with rating 4 among the certain entries, failing that with rating 3 among the
/// likely ones.
pub proof fn law_lookup(
    lex: Lexicon,
    word: Seq<char>,
    tag: Seq<char>,
    level: Option<Stress>,
    ctx: Option<&TokenContext>,
    ps: Seq<char>,
)
    requires
        word != unicode::uppercase(word) || lexicon::entry_of(lex.golds@, word) is Some,
    ensures
        found(lex.golds@, word, tag, ctx) == Some(ps) ==> lex.looked_up(word, tag, level, ctx)
            == Some((stress::stressed(ps, level), 4i32)),
        found(lex.golds@, word, tag, ctx) is None && found(lex.silvers@, word, tag, ctx) == Some(ps)
            ==> lex.looked_up(word, tag, level, ctx) == Some((stress::stressed(ps, level), 3i32)),
        found(lex.golds@, word, tag, ctx) is None && found(lex.silvers@, word, tag, ctx) is None
            ==> lex.looked_up(word, tag, level, ctx) is None,
{
}

/// A word all in capitals that the certain entries do not answer for, and that is no proper
/// noun, is looked up in lower case, in the same order.
pub proof fn law_lookup_of_capitals(
    lex: Lexicon,
    word: Seq<char>,
    tag: Seq<char>,
    level: Option<Stress>,
    ctx: Option<&TokenContext>,
    ps: Seq<char>,
)
    requires
        word == unicode::uppercase(word),
        lexicon::entry_of(lex.golds@, word) is None,
        tag != "NNP"@,
    ensures
        ({
            let lower = unicode::lowercase(word);
            &&& found(lex.golds@, lower, tag, ctx) == Some(ps) ==> lex.looked_up(
                word,
                tag,
                level,
                ctx,
            ) == Some((stress::stressed(ps, level), 4i32))
            &&& found(lex.golds@, lower, tag, ctx) is None && found(lex.silvers@, lower, tag, ctx)
                == Some(ps) ==> lex.looked_up(word, tag, level, ctx) == Some(
                (stress::stressed(ps, level), 3i32),
            )
            &&& found(lex.golds@, lower, tag, ctx) is None && found(
                lex.silvers@,
                lower,
                tag,
                ctx,
            ) is None ==> lex.looked_up(word, tag, level, ctx) is None
        }),
{
}

/// A proper noun in capitals that the certain entries do not answer for keeps what these have
/// for its lower case if that has primary stress. If not, it is spelt where it can be. The
/// likely entries are not asked.
pub proof fn law_lookup_of_a_name_in_capitals(
    lex: Lexicon,
    word: Seq<char>,
    level: Option<Stress>,
    ctx: Option<&TokenContext>,
    ps: Seq<char>,
    letters: Seq<char>,
    rating: i32,
)
    requires
        word == unicode::uppercase(word),
        lexicon::entry_of(lex.golds@, word) is None,
    ensures
        ({
            let lower = unicode::lowercase(word);
            let tag = "NNP"@;
            let gold = found(lex.golds@, lower, tag, ctx);
            let r = lex.looked_up(word, tag, level, ctx);
            &&& gold == Some(ps) && ps.contains('ˈ') ==> r == Some(
                (stress::stressed(ps, level), 4i32),
            )
            &&& (gold is None || !gold->0.contains('ˈ')) && lexicon::spelt(lex.golds@, lower)
                == Some((letters, rating)) ==> r == Some((stress::stressed(letters, level), rating))
            &&& gold == Some(ps) && !ps.contains('ˈ') && lexicon::spelt(lex.golds@, lower) is None
                ==> r == Some((stress::stressed(ps, level), 4i32))
            &&& gold is None && lexicon::spelt(lex.golds@, lower) is None ==> r is None
        }),
{
}

/// A word is spelt by the names of its letters, one behind the other, without stress marks but
/// for primary stress on the last that had any; with rating 3. A word with a letter that has
/// no name, or without names at all, is not spelt.
pub proof fn law_spelling(
    golds: Map<Seq<char>, PhonemeEntry>,
    word: Seq<char>,
    names: Seq<Seq<char>>,
)
    ensures
        lexicon::letter_names(golds, word) == Some(names) && names.len() > 0 ==> lexicon::spelt(
            golds,
            word,
        ) == Some(
            (
                lexicon::last_promoted(
                    stress::stressed(
                        text::joined(names, Seq::empty()),
                        Some(Stress { quarters: 0 }),
                    ),
                ),
                3i32,
            ),
        ),
        lexicon::letter_names(golds, word) == Some(Seq::<Seq<char>>::empty()) ==> lexicon::spelt(
            golds,
            word,
        ) is None,
        lexicon::letter_names(golds, word) is None ==> lexicon::spelt(golds, word) is None,
{
}

/// The names of a word's letters are those of each of its parts.
pub proof fn law_letters_in_order(
    golds: Map<Seq<char>, PhonemeEntry>,
    a: Seq<char>,
    b: Seq<char>,
)
    ensures
        lexicon::letter_names(golds, Seq::empty()) == Some(Seq::<Seq<char>>::empty()),
        lexicon::letter_names(golds, a) is Some && lexicon::letter_names(golds, b) is Some
            ==> lexicon::letter_names(golds, a + b) == Some(
            lexicon::letter_names(golds, a)->0 + lexicon::letter_names(golds, b)->0,
        ),
        lexicon::letter_names(golds, a) is None || lexicon::letter_names(golds, b) is None
            ==> lexicon::letter_names(golds, a + b) is None,
    decreases b.len(),
{
    if b.len() == 0 {
        assert(a + b =~= a);
        if let Some(x) = lexicon::letter_names(golds, a) {
            assert(x + Seq::<Seq<char>>::empty() =~= x);
        }
    } else {
        law_letters_in_order(golds, a, b.drop_last());
        assert((a + b).drop_last() =~= a + b.drop_last());
        assert((a + b).last() == b.last());
        if let (Some(x), Some(y)) = (
            lexicon::letter_names(golds, a),
            lexicon::letter_names(golds, b.drop_last()),
        ) {
            let key = unicode::char_uppercase(b.last());
            if golds.contains_key(key) {
                if let PhonemeEntry::Simple(ps) = golds[key] {
                    assert((x + y).push(ps@) =~= x + y.push(ps@));
                }
            }
        }
    }
}

/// The name of a letter is the plain pronunciation of its capital. A letter whose capital has
/// one for each part of speech, and a character that is no letter, is passed over; a letter
/// whose capital has none has no name.
pub proof fn law_name_of_a_letter(golds: Map<Seq<char>, PhonemeEntry>, c: char)
    ensures
        ({
            let key = unicode::char_uppercase(c);
            let names = lexicon::letter_names(golds, seq![c]);
            let none = Seq::<Seq<char>>::empty();
            &&& !unicode::is_alphabetic(c) ==> names == Some(none)
            &&& unicode::is_alphabetic(c) && !golds.contains_key(key) ==> names is None
            &&& unicode::is_alphabetic(c) && golds.contains_key(key) && golds[key] is Tagged
                ==> names == Some(none)
            &&& unicode::is_alphabetic(c) && golds.contains_key(key) ==> (golds[key] matches
                PhonemeEntry::Simple(ps) ==> names == Some(seq![ps@]))
        }),
{
    reveal_with_fuel(lexicon::letter_names, 2);
    assert(seq![c].drop_last() =~= Seq::<char>::empty());
    assert(seq![c].last() == c);
    let key = unicode::char_uppercase(c);
    if golds.contains_key(key) {
        if let PhonemeEntry::Simple(ps) = golds[key] {
            assert(Seq::<Seq<char>>::empty().push(ps@) =~= seq![ps@]);
        }
    }
}

/// Of the secondary stress marks the last becomes primary, and the rest stays.
pub proof fn law_last_mark_is_raised(a: Seq<char>, b: Seq<char>)
    requires
        forall|i: int| 0 <= i < b.len() ==> #[trigger] b[i] != 'ˌ',
    ensures
        lexicon::last_promoted(a + seq!['ˌ'] + b) == a + seq!['ˈ'] + b,
        lexicon::last_promoted(b) == b,
    decreases b.len(),
{
    let s = a + seq!['ˌ'] + b;
    if b.len() == 0 {
        assert(s.drop_last().push('ˈ') =~= a + seq!['ˈ'] + b);
    } else {
        law_last_mark_is_raised(a, b.drop_last());
        assert(b[b.len() - 1] == b.last());
        assert(s.drop_last() =~= a + seq!['ˌ'] + b.drop_last());
        assert((a + seq!['ˈ'] + b.drop_last()).push(b.last()) =~= a + seq!['ˈ'] + b);
        assert(b.drop_last().push(b.last()) =~= b);
    }
}

/// Whether a word is made of letters that dictionary words are made of.
pub open spec fn is_spellable(word: Seq<char>) -> bool {
    forall|i: int|
        0 <= i < word.len() ==> unicode::is_alphabetic(#[trigger] word[i]) && ('a' <= word[i] <= 'z'
            || 'A' <= word[i] <= 'Z' || word[i] == '[' || word[i] == '\'' || word[i] == '-')
}

/// Known are: the words with an entry, the named symbols, and of the words made of dictionary
/// letters the single letters, those in capitals whose lower case has a certain entry, and
/// those in capitals behind their first letter.
pub proof fn law_known_words(lex: Lexicon, word: Seq<char>)
    ensures
        lexicon::entry_of(lex.golds@, word) is Some ==> lex.knows(word),
        lexicon::entry_of(lex.silvers@, word) is Some ==> lex.knows(word),
        word == seq!['%'] || word == seq!['&'] || word == seq!['+'] || word == seq!['@']
            ==> lex.knows(word),
        is_spellable(word) && word.len() == 1 ==> lex.knows(word),
        is_spellable(word) && word == unicode::uppercase(word) && lexicon::entry_of(
            lex.golds@,
            unicode::lowercase(word),
        ) is Some ==> lex.knows(word),
        is_spellable(word) && word.len() > 1 && word.skip(1) == unicode::uppercase(word.skip(1))
            ==> lex.knows(word),
{
    laws::special::law_symbols_have_names(word);
    text::lemma_utf8_len_chars(word);
    lemma_spellable(word);
}

proof fn lemma_spellable(word: Seq<char>)
    ensures
        is_spellable(word) <==> words::all_alphabetic(word) && words::all_lexicon_chars(word),
{
    if is_spellable(word) {
        assert forall|i: int| 0 <= i < word.len() implies words::is_lexicon_char(
            #[trigger] word[i],
        ) by {
            assert(unicode::is_alphabetic(word[i]));
        }
    }
    if words::all_alphabetic(word) && words::all_lexicon_chars(word) {
        assert forall|i: int| 0 <= i < word.len() implies unicode::is_alphabetic(
            #[trigger] word[i],
        ) && ('a' <= word[i] <= 'z' || 'A' <= word[i] <= 'Z' || word[i] == '[' || word[i] == '\''
            || word[i] == '-') by {
            assert(words::is_lexicon_char(word[i]));
        }
    }
}

/// All other words are not known.
pub proof fn law_other_words_are_not_known(lex: Lexicon, word: Seq<char>)
    requires
        lexicon::entry_of(lex.golds@, word) is None,
        lexicon::entry_of(lex.silvers@, word) is None,
        word != seq!['%'],
        word != seq!['&'],
        word != seq!['+'],
        word != seq!['@'],
        is_spellable(word) ==> word.len() != 1 && (word.len() > 1 ==> word.skip(1)
            != unicode::uppercase(word.skip(1))) && !(word == unicode::uppercase(word)
            && lexicon::entry_of(lex.golds@, unicode::lowercase(word)) is Some),
    ensures
        !lex.knows(word),
{
    laws::special::law_symbols_have_names(word);
    text::lemma_utf8_len_chars(word);
    lemma_spellable(word);
}

/// A word is read in lower case just if it has more than one byte and is made of letters and
/// apostrophes; is in capitals, or capitalized with the rest in lower case; has no entry of
/// its own; is no proper noun of up to seven bytes; and its lower case has an entry or is an
/// inflected form of a word that has.
pub proof fn law_when_case_is_folded(
    lex: Lexicon,
    word: Seq<char>,
    tag: Seq<char>,
    level: Option<Stress>,
    ctx: Option<&TokenContext>,
)
    ensures
        ({
            let lower = unicode::lowercase(word);
            let bytes = vstd::utf8::encode_utf8(word).len();
            lex.folds(word, tag, level, ctx) <==> {
                &&& bytes > 1
                &&& forall|i: int|
                    0 <= i < word.len() ==> #[trigger] word[i] == '\'' || unicode::is_alphabetic(
                        word[i],
                    )
                &&& word != lower
                &&& word == unicode::uppercase(word) || word.skip(1) == unicode::lowercase(
                    word.skip(1),
                )
                &&& tag == "NNP"@ ==> bytes > 7
                &&& lexicon::entry_of(lex.golds@, word) is None
                &&& lexicon::entry_of(lex.silvers@, word) is None
                &&& {
                    ||| lexicon::entry_of(lex.golds@, lower) is Some
                    ||| lexicon::entry_of(lex.silvers@, lower) is Some
                    ||| lex.stemmed_s(lower, tag, level, ctx) is Some
                    ||| lex.stemmed_ed(lower, tag, level, ctx) is Some
                    ||| lex.stemmed_ing(lower, tag, level, ctx) is Some
                }
            }
        }),
{
    let letters = forall|i: int|
        0 <= i < word.len() ==> #[trigger] word[i] == '\'' || unicode::is_alphabetic(word[i]);
    assert(letters == words::all_alphabetic(text::without(word, '\''))) by {
        if letters {
            laws::special::lemma_without_alphabetic(word, '\'');
        }
        if words::all_alphabetic(text::without(word, '\'')) {
            lemma_letters_left(word, '\'');
        }
    }
}

/// If letters are left without a character, there were but letters and that character.
pub proof fn lemma_letters_left(word: Seq<char>, d: char)
    requires
        words::all_alphabetic(text::without(word, d)),
    ensures
        forall|i: int|
            0 <= i < word.len() ==> #[trigger] word[i] == d || unicode::is_alphabetic(word[i]),
    decreases word.len(),
{
    if word.len() > 0 {
        let t = word.drop_last();
        let x = word.last();
        assert(word =~= t.push(x));
        text::lemma_without_push(t, d, x);
        let left = text::without(t, d);
        let all = text::without(word, d);
        if x != d {
            assert(all == left.push(x));
            assert forall|i: int| 0 <= i < left.len() implies unicode::is_alphabetic(
                #[trigger] left[i],
            ) by {
                assert(all[i] == left[i]);
            }
            assert(all[all.len() - 1] == x);
        }
        lemma_letters_left(t, d);
        assert forall|i: int| 0 <= i < word.len() implies #[trigger] word[i] == d
            || unicode::is_alphabetic(word[i]) by {
            if i < t.len() {
                assert(t[i] == word[i]);
            }
        }
    }
}

/// A word without a form of its own, in the case in which it is read, is looked up if it is
/// known. If not, it is looked up without a final apostrophe: as the possessive of what stands
/// before s' where that is known, else as what stands before the apostrophe. Failing that it
/// is taken for an inflected form in s, then in ed, and last in ing, whose stem gets half
/// stress where no level is asked for.
pub proof fn law_order_of_readings(
    lex: Lexicon,
    word: Seq<char>,
    w: Seq<char>,
    tag: Seq<char>,
    level: Option<Stress>,
    ctx: Option<&TokenContext>,
)
    requires
        lex.special(word, tag, level, ctx) is None,
        lex.folds(word, tag, level, ctx) ==> w == unicode::lowercase(word),
        !lex.folds(word, tag, level, ctx) ==> w == word,
    ensures
        ({
            let r = lex.pronounced(word, tag, level, ctx);
            let n = w.len();
            let owner = n >= 2 && w[n - 2] == 's' && w[n - 1] == '\'' && lex.knows(w.take(n - 2));
            let trail = n >= 1 && w[n - 1] == '\'' && lex.knows(w.take(n - 1));
            let half = match level {
                Some(s) => s,
                None => Stress { quarters: 2 },
            };
            let s = lex.stemmed_s(w, tag, level, ctx);
            let ed = lex.stemmed_ed(w, tag, level, ctx);
            let unheard = !lex.knows(w) && !owner && !trail;
            &&& lex.knows(w) ==> r == lex.looked_up(w, tag, level, ctx)
            &&& !lex.knows(w) && owner ==> r == lex.looked_up(
                w.take(n - 2) + seq!['\'', 's'],
                tag,
                level,
                ctx,
            )
            &&& !lex.knows(w) && !owner && trail ==> r == lex.looked_up(
                w.take(n - 1),
                tag,
                level,
                ctx,
            )
            &&& unheard && s is Some ==> r == s
            &&& unheard && s is None && ed is Some ==> r == ed
            &&& unheard && s is None && ed is None ==> r == lex.stemmed_ing(
                w,
                tag,
                Some(half),
                ctx,
            )
        }),
{
    reveal(Lexicon::pronounced);
    reveal_strlit("s'");
    reveal_strlit("'s");
    reveal_strlit("'");
    assert("'s"@ =~= seq!['\'', 's']);
    lemma_ends_in_apostrophe(w);
}

proof fn lemma_ends_in_apostrophe(w: Seq<char>)
    ensures
        "s'"@.is_suffix_of(w) <==> w.len() >= 2 && w[w.len() - 2] == 's' && w[w.len() - 1] == '\'',
        "'"@.is_suffix_of(w) <==> w.len() >= 1 && w[w.len() - 1] == '\'',
{
    reveal_strlit("s'");
    reveal_strlit("'");
    let n = w.len() as int;
    if n >= 1 {
        assert(w.subrange(n - 1, n)[0] == w[n - 1]);
        if w[n - 1] == '\'' {
            assert(w.subrange(n - 1, n) =~= "'"@);
        }
    }
    if n >= 2 {
        assert(w.subrange(n - 2, n)[0] == w[n - 2]);
        assert(w.subrange(n - 2, n)[1] == w[n - 1]);
        if w[n - 2] == 's' && w[n - 1] == '\'' {
            assert(w.subrange(n - 2, n) =~= "s'"@);
        }
    }
}

/// An inflected form is the form of what its stem, found in lower case, is looked up as, with
/// the rating of that; there is none where there is no stem, nothing to look up, or no form.
pub proof fn law_inflected_forms(
    lex: Lexicon,
    word: Seq<char>,
    tag: Seq<char>,
    level: Option<Stress>,
    ctx: Option<&TokenContext>,
    stem: Seq<char>,
    ps: Seq<char>,
    rating: i32,
)
    requires
        lex.looked_up(stem, tag, level, ctx) == Some((ps, rating)),
    ensures
        ({
            let lower = unicode::lowercase(word);
            &&& lex.stem_of_s(lower) == Some(stem) ==> lex.stemmed_s(word, tag, level, ctx) == Some(
                (stem::with_s(lex.lang, ps), rating),
            )
            &&& lex.stem_of_ed(lower) == Some(stem) ==> lex.stemmed_ed(word, tag, level, ctx)
                == Some((stem::with_ed(lex.lang, ps), rating))
            &&& lex.stem_of_ing(lower) == Some(stem) ==> (match stem::with_ing(lex.lang, ps) {
                Some(full) => lex.stemmed_ing(word, tag, level, ctx) == Some((full, rating)),
                None => lex.stemmed_ing(word, tag, level, ctx) is None,
            })
        }),
{
}

/// A word without a stem, or with one that nothing is found for, has no inflected form.
pub proof fn law_no_stem_no_form(
    lex: Lexicon,
    word: Seq<char>,
    tag: Seq<char>,
    level: Option<Stress>,
    ctx: Option<&TokenContext>,
)
    ensures
        ({
            let lower = unicode::lowercase(word);
            let found = |stem: Option<Seq<char>>|
                stem is Some && lex.looked_up(stem->0, tag, level, ctx) is Some;
            &&& !found(lex.stem_of_s(lower)) ==> lex.stemmed_s(word, tag, level, ctx) is None
            &&& !found(lex.stem_of_ed(lower)) ==> lex.stemmed_ed(word, tag, level, ctx) is None
            &&& !found(lex.stem_of_ing(lower)) ==> lex.stemmed_ing(word, tag, level, ctx) is None
        }),
{
}

} // verus!
