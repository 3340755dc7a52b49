//! What the endings of inflected words sound like, sound by sound, and which words they are
//! taken off.

use crate::language::Language;
use crate::lexicon::Lexicon;
use crate::stem;
use crate::text;
use vstd::prelude::*;

verus! {

/// An s behind p, t, k, f or θ is a plain s. Behind s, z, ʃ, ʒ, ʧ or ʤ it is a syllable, with
/// ɪ in British and ᵻ in American English. Behind anything else it is a z. There is nothing
/// to put it behind where there is no sound at all.
pub proof fn law_s_by_last_sound(lang: Language, ps: Seq<char>)
    ensures
        ps.len() == 0 ==> stem::with_s(lang, ps) == ps,
        ps.len() > 0 && (ps.last() == 'p' || ps.last() == 't' || ps.last() == 'k' || ps.last()
            == 'f' || ps.last() == 'θ') ==> stem::with_s(lang, ps) == ps + seq!['s'],
        ps.len() > 0 && (ps.last() == 's' || ps.last() == 'z' || ps.last() == 'ʃ' || ps.last()
            == 'ʒ' || ps.last() == 'ʧ' || ps.last() == 'ʤ') && lang == Language::EnglishGB
            ==> stem::with_s(lang, ps) == ps + seq!['ɪ', 'z'],
        ps.len() > 0 && (ps.last() == 's' || ps.last() == 'z' || ps.last() == 'ʃ' || ps.last()
            == 'ʒ' || ps.last() == 'ʧ' || ps.last() == 'ʤ') && lang == Language::EnglishUS
            ==> stem::with_s(lang, ps) == ps + seq!['ᵻ', 'z'],
        ps.len() > 0 && ps.last() != 'p' && ps.last() != 't' && ps.last() != 'k' && ps.last() != 'f'
            && ps.last() != 'θ' && ps.last() != 's' && ps.last() != 'z' && ps.last() != 'ʃ'
            && ps.last() != 'ʒ' && ps.last() != 'ʧ' && ps.last() != 'ʤ' ==> stem::with_s(lang, ps)
            == ps + seq!['z'],
{
    let full = stem::with_s(lang, ps);
    assert(ps + seq!['s'] =~= ps.push('s'));
    assert(ps + seq!['z'] =~= ps.push('z'));
    assert(ps + seq!['ɪ', 'z'] =~= ps.push('ɪ').push('z'));
    assert(ps + seq!['ᵻ', 'z'] =~= ps.push('ᵻ').push('z'));
}

/// Whether a sound is one of those behind which American speech flaps a t.
pub open spec fn flaps_t(c: char) -> bool {
    ||| c == 'A' || c == 'I' || c == 'O' || c == 'W' || c == 'Y' || c == 'i' || c == 'u'
    ||| c == 'æ' || c == 'ɑ' || c == 'ə' || c == 'ɛ' || c == 'ɪ' || c == 'ɹ' || c == 'ʊ'
    ||| c == 'ʌ'
}

/// An ed behind p, k, f, θ, ʃ, s or ʧ is a t. Behind d and t it is a syllable, with ɪ in British
/// and ᵻ in American English; a lone t takes ɪ in both, and American speech flaps a t that
/// stands behind one of the sounds of [`flaps_t`]. Behind anything else it is a d.
pub proof fn law_ed_by_last_sound(lang: Language, ps: Seq<char>)
    ensures
        ps.len() == 0 ==> stem::with_ed(lang, ps) == ps,
        ps.len() > 0 && (ps.last() == 'p' || ps.last() == 'k' || ps.last() == 'f' || ps.last()
            == 'θ' || ps.last() == 'ʃ' || ps.last() == 's' || ps.last() == 'ʧ')
            ==> stem::with_ed(lang, ps) == ps + seq!['t'],
        ps.len() > 0 && ps.last() == 'd' && lang == Language::EnglishGB ==> stem::with_ed(lang, ps)
            == ps + seq!['ɪ', 'd'],
        ps.len() > 0 && ps.last() == 'd' && lang == Language::EnglishUS ==> stem::with_ed(lang, ps)
            == ps + seq!['ᵻ', 'd'],
        ps.len() > 0 && ps.last() == 't' && lang == Language::EnglishGB ==> stem::with_ed(lang, ps)
            == ps + seq!['ɪ', 'd'],
        ps == seq!['t'] ==> stem::with_ed(lang, ps) == seq!['t', 'ɪ', 'd'],
        ps.len() > 1 && ps.last() == 't' && lang == Language::EnglishUS && flaps_t(ps[ps.len() - 2])
            ==> stem::with_ed(lang, ps) == ps.take(ps.len() - 1) + seq!['ɾ', 'ᵻ', 'd'],
        ps.len() > 1 && ps.last() == 't' && lang == Language::EnglishUS && !flaps_t(
            ps[ps.len() - 2],
        ) ==> stem::with_ed(lang, ps) == ps + seq!['ᵻ', 'd'],
        ps.len() > 0 && ps.last() != 'p' && ps.last() != 'k' && ps.last() != 'f' && ps.last() != 'θ'
            && ps.last() != 'ʃ' && ps.last() != 's' && ps.last() != 'ʧ' && ps.last() != 'd'
            && ps.last() != 't' ==> stem::with_ed(lang, ps) == ps + seq!['d'],
{
    assert(ps + seq!['t'] =~= ps.push('t'));
    assert(ps + seq!['d'] =~= ps.push('d'));
    assert(ps + seq!['ɪ', 'd'] =~= ps.push('ɪ').push('d'));
    assert(ps + seq!['ᵻ', 'd'] =~= ps.push('ᵻ').push('d'));
    assert(seq!['t', 'ɪ', 'd'] =~= seq!['t'].push('ɪ').push('d'));
    if ps.len() > 1 {
        assert(ps.take(ps.len() - 1) + seq!['ɾ', 'ᵻ', 'd'] =~= ps.drop_last().push('ɾ').push(
            'ᵻ',
        ).push('d'));
    }
}

/// British English has a form with ing just for the stems that end in neither ə nor ː, and it
/// is the stem with ɪŋ behind it. American English has one for every stem; a t that stands
/// behind one of the sounds of [`flaps_t`] is flapped in it.
pub proof fn law_ing_by_last_sound(lang: Language, ps: Seq<char>)
    ensures
        ps.len() == 0 ==> stem::with_ing(lang, ps) is None,
        ps.len() > 0 && lang == Language::EnglishGB && (ps.last() == 'ə' || ps.last() == 'ː')
            ==> stem::with_ing(lang, ps) is None,
        ps.len() > 0 && lang == Language::EnglishGB && ps.last() != 'ə' && ps.last() != 'ː'
            ==> stem::with_ing(lang, ps) == Some(ps + seq!['ɪ', 'ŋ']),
        ps.len() > 0 && lang == Language::EnglishUS && !(ps.len() > 1 && ps.last() == 't'
            && flaps_t(ps[ps.len() - 2])) ==> stem::with_ing(lang, ps) == Some(
            ps + seq!['ɪ', 'ŋ'],
        ),
        ps.len() > 1 && lang == Language::EnglishUS && ps.last() == 't' && flaps_t(
            ps[ps.len() - 2],
        ) ==> stem::with_ing(lang, ps) == Some(ps.take(ps.len() - 1) + seq!['ɾ', 'ɪ', 'ŋ']),
{
    assert(ps + seq!['ɪ', 'ŋ'] =~= ps.push('ɪ').push('ŋ'));
    if ps.len() > 1 {
        assert(ps.take(ps.len() - 1) + seq!['ɾ', 'ɪ', 'ŋ'] =~= ps.drop_last().push('ɾ').push(
            'ɪ',
        ).push('ŋ'));
    }
}

/// A word with an ending behind it ends in that ending.
proof fn lemma_ends(a: Seq<char>, end: Seq<char>)
    ensures
        end.is_suffix_of(a + end),
        (a + end).take((a + end).len() - end.len()) == a,
        end.len() > 0 ==> (a + end).last() == end.last(),
{
    let s = a + end;
    assert(s.subrange(s.len() - end.len(), s.len() as int) =~= end);
    assert(s.take(s.len() - end.len()) =~= a);
}

/// What a suffix says of the last symbols.
proof fn lemma_suffix_tail(end: Seq<char>, s: Seq<char>)
    ensures
        end.is_suffix_of(s) <==> end.len() <= s.len() && forall|i: int|
            0 <= i < end.len() ==> #[trigger] end[i] == s[s.len() - end.len() + i],
{
    if end.len() <= s.len() {
        let t = s.subrange(s.len() - end.len(), s.len() as int);
        if forall|i: int| 0 <= i < end.len() ==> #[trigger] end[i] == s[s.len() - end.len() + i] {
            assert(end =~= t);
        }
        if end.is_suffix_of(s) {
            assert forall|i: int| 0 <= i < end.len() implies #[trigger] end[i] == s[s.len()
                - end.len() + i] by {
                assert(end[i] == t[i]);
            }
        }
    }
}

/// A known word that does not end in s is the stem of the same word with an s behind it.
pub proof fn law_stem_of_word_and_s(lex: Lexicon, base: Seq<char>)
    requires
        lex.knows(base),
        text::utf8_len(base + seq!['s']) >= 3,
        base.last() != 's',
        base.len() > 0,
    ensures
        lex.stem_of_s(base + seq!['s']) == Some(base),
{
    let w = base + seq!['s'];
    reveal_strlit("s");
    reveal_strlit("ss");
    assert("s"@ =~= seq!['s']);
    lemma_ends(base, seq!['s']);
    lemma_suffix_tail("ss"@, w);
    assert(w[w.len() - 2] == base.last());
    if "ss"@.is_suffix_of(w) {
        assert("ss"@[0] == w[w.len() - 2]);
    }
}

/// A known word is the stem of the same word with 's behind it, and of the same word with es
/// behind it if that takes more than four bytes and the word does not end in i, unless all
/// but the last letter is known itself.
pub proof fn law_stem_of_word_and_longer_s(lex: Lexicon, base: Seq<char>)
    requires
        lex.knows(base),
    ensures
        text::utf8_len(base + seq!['\'', 's']) >= 3 && !lex.knows(base + seq!['\''])
            ==> lex.stem_of_s(base + seq!['\'', 's']) == Some(base),
        text::utf8_len(base + seq!['e', 's']) > 4 && !lex.knows(base + seq!['e']) && base.len() > 0
            && base.last() != 'i' ==> lex.stem_of_s(base + seq!['e', 's']) == Some(base),
{
    reveal_strlit("s");
    reveal_strlit("ss");
    reveal_strlit("'s");
    reveal_strlit("es");
    reveal_strlit("ies");
    let q = base + seq!['\'', 's'];
    let e = base + seq!['e', 's'];
    assert("'s"@ =~= seq!['\'', 's']);
    assert("es"@ =~= seq!['e', 's']);
    lemma_ends(base, seq!['\'', 's']);
    lemma_ends(base, seq!['e', 's']);
    lemma_suffix_tail("s"@, q);
    lemma_suffix_tail("ss"@, q);
    lemma_suffix_tail("s"@, e);
    lemma_suffix_tail("ss"@, e);
    lemma_suffix_tail("ies"@, e);
    assert(q.take(q.len() - 1) =~= base + seq!['\'']);
    assert(e.take(e.len() - 1) =~= base + seq!['e']);
    if base.len() > 0 && "ies"@.is_suffix_of(e) {
        assert("ies"@[0] == e[e.len() - 3]);
    }
}

/// A known word in y is the stem of the same word with ies in the place of y, if that takes
/// more than four bytes and is not known without its s.
pub proof fn law_stem_of_word_in_ies(lex: Lexicon, front: Seq<char>)
    requires
        lex.knows(front + seq!['y']),
        !lex.knows(front + seq!['i', 'e']),
        text::utf8_len(front + seq!['i', 'e', 's']) > 4,
    ensures
        lex.stem_of_s(front + seq!['i', 'e', 's']) == Some(front + seq!['y']),
{
    reveal_strlit("s");
    reveal_strlit("ss");
    reveal_strlit("'s");
    reveal_strlit("es");
    reveal_strlit("ies");
    reveal_strlit("y");
    let w = front + seq!['i', 'e', 's'];
    assert("ies"@ =~= seq!['i', 'e', 's']);
    assert("y"@ =~= seq!['y']);
    lemma_ends(front, seq!['i', 'e', 's']);
    lemma_suffix_tail("s"@, w);
    lemma_suffix_tail("ss"@, w);
    lemma_suffix_tail("'s"@, w);
    assert(w.take(w.len() - 1) =~= front + seq!['i', 'e']);
    if "'s"@.is_suffix_of(w) {
        assert("'s"@[0] == w[w.len() - 2]);
    }
}

/// Whatever is taken for the stem of a word is the word without s, 's or es, or with y in the
/// place of ies; words that do not end in s, or are shorter than three bytes, have none, and
/// nor do words in ss unless an es or an 's comes off.
pub proof fn law_stem_of_s_shape(lex: Lexicon, w: Seq<char>)
    ensures
        text::utf8_len(w) < 3 ==> lex.stem_of_s(w) is None,
        w.len() == 0 || w.last() != 's' ==> lex.stem_of_s(w) is None,
        lex.stem_of_s(w) matches Some(b) ==> {
            ||| w == b + seq!['s'] && !(b.len() > 0 && b.last() == 's')
            ||| w == b + seq!['\'', 's']
            ||| w == b + seq!['e', 's'] && text::utf8_len(w) > 4
            ||| w.len() >= 3 && text::utf8_len(w) > 4 && b == w.take(w.len() - 3) + seq!['y'] && w
                == w.take(w.len() - 3) + seq!['i', 'e', 's']
        },
{
    reveal_strlit("s");
    reveal_strlit("ss");
    reveal_strlit("'s");
    reveal_strlit("es");
    reveal_strlit("ies");
    reveal_strlit("y");
    lemma_suffix_tail("s"@, w);
    lemma_suffix_tail("ss"@, w);
    lemma_suffix_tail("'s"@, w);
    lemma_suffix_tail("es"@, w);
    lemma_suffix_tail("ies"@, w);
    if let Some(b) = lex.stem_of_s(w) {
        let n = w.len();
        if !"ss"@.is_suffix_of(w) && lex.knows(w.take(n - 1)) {
            assert("s"@[0] == w[n - 1]);
            assert(w =~= b + seq!['s']);
            if b.len() > 0 && b.last() == 's' {
                assert("ss"@[0] == w[n - 2]);
                assert("ss"@[1] == w[n - 1]);
                assert("ss"@.is_suffix_of(w));
            }
        } else if ("'s"@.is_suffix_of(w) || (text::utf8_len(w) > 4 && "es"@.is_suffix_of(w)
            && !"ies"@.is_suffix_of(w))) && lex.knows(w.take(n - 2)) {
            if "'s"@.is_suffix_of(w) {
                assert("'s"@[0] == w[n - 2]);
                assert("'s"@[1] == w[n - 1]);
                assert(w =~= b + seq!['\'', 's']);
            } else {
                assert("es"@[0] == w[n - 2]);
                assert("es"@[1] == w[n - 1]);
                assert(w =~= b + seq!['e', 's']);
            }
        } else {
            let f = w.take(n - 3);
            assert("ies"@[0] == w[n - 3]);
            assert("ies"@[1] == w[n - 2]);
            assert("ies"@[2] == w[n - 1]);
            assert(w =~= f + seq!['i', 'e', 's']);
            assert(b =~= f + seq!['y']);
        }
    }
}

/// A known word is the stem of the same word with a d behind it, if it does not end in d, and
/// of the same word with ed behind it, if it does not end in e and is not known with an e.
/// The shortest such words take four bytes, and five for ed.
pub proof fn law_stem_of_word_and_ed(lex: Lexicon, base: Seq<char>)
    requires
        lex.knows(base),
        base.len() > 0,
    ensures
        text::utf8_len(base + seq!['d']) >= 4 && base.last() != 'd' ==> lex.stem_of_ed(
            base + seq!['d'],
        ) == Some(base),
        text::utf8_len(base + seq!['e', 'd']) > 4 && base.last() != 'e' && !lex.knows(
            base + seq!['e'],
        ) ==> lex.stem_of_ed(base + seq!['e', 'd']) == Some(base),
{
    reveal_strlit("d");
    reveal_strlit("dd");
    reveal_strlit("ed");
    reveal_strlit("eed");
    let d = base + seq!['d'];
    let e = base + seq!['e', 'd'];
    assert("d"@ =~= seq!['d']);
    assert("ed"@ =~= seq!['e', 'd']);
    lemma_ends(base, seq!['d']);
    lemma_ends(base, seq!['e', 'd']);
    lemma_suffix_tail("dd"@, d);
    lemma_suffix_tail("d"@, e);
    lemma_suffix_tail("dd"@, e);
    lemma_suffix_tail("eed"@, e);
    assert(d[d.len() - 2] == base.last());
    if "dd"@.is_suffix_of(d) {
        assert("dd"@[0] == d[d.len() - 2]);
    }
    assert(e.take(e.len() - 1) =~= base + seq!['e']);
    if "eed"@.is_suffix_of(e) {
        assert("eed"@[0] == e[e.len() - 3]);
    }
}

/// Whatever is taken for the stem of a word is the word without d or ed; words that do not
/// end in d, or are shorter than four bytes, have none.
pub proof fn law_stem_of_ed_shape(lex: Lexicon, w: Seq<char>)
    ensures
        text::utf8_len(w) < 4 ==> lex.stem_of_ed(w) is None,
        w.len() == 0 || w.last() != 'd' ==> lex.stem_of_ed(w) is None,
        lex.stem_of_ed(w) matches Some(b) ==> {
            ||| w == b + seq!['d'] && !(b.len() > 0 && b.last() == 'd')
            ||| w == b + seq!['e', 'd'] && text::utf8_len(w) > 4 && !(b.len() > 0 && b.last()
                == 'e')
        },
{
    reveal_strlit("d");
    reveal_strlit("dd");
    reveal_strlit("ed");
    reveal_strlit("eed");
    lemma_suffix_tail("d"@, w);
    lemma_suffix_tail("dd"@, w);
    lemma_suffix_tail("ed"@, w);
    lemma_suffix_tail("eed"@, w);
    if let Some(b) = lex.stem_of_ed(w) {
        let n = w.len();
        if !"dd"@.is_suffix_of(w) && lex.knows(w.take(n - 1)) {
            assert("d"@[0] == w[n - 1]);
            assert(w =~= b + seq!['d']);
            if b.len() > 0 && b.last() == 'd' {
                assert("dd"@.is_suffix_of(w));
            }
        } else {
            assert("ed"@[0] == w[n - 2]);
            assert("ed"@[1] == w[n - 1]);
            assert(w =~= b + seq!['e', 'd']);
            if b.len() > 0 && b.last() == 'e' {
                assert("eed"@.is_suffix_of(w));
            }
        }
    }
}

/// Whether a consonant is one that is doubled before ing.
pub open spec fn doubles(c: char) -> bool {
    ||| c == 'b' || c == 'c' || c == 'd' || c == 'g' || c == 'k' || c == 'l' || c == 'm'
    ||| c == 'n' || c == 'p' || c == 'r' || c == 's' || c == 't' || c == 'v' || c == 'x'
    ||| c == 'z'
}

/// A known word is the stem of the same word with ing behind it, if that takes more than five
/// bytes.
pub proof fn law_stem_of_word_and_ing(lex: Lexicon, base: Seq<char>)
    requires
        lex.knows(base),
        text::utf8_len(base + seq!['i', 'n', 'g']) > 5,
    ensures
        lex.stem_of_ing(base + seq!['i', 'n', 'g']) == Some(base),
{
    reveal_strlit("ing");
    assert("ing"@ =~= seq!['i', 'n', 'g']);
    lemma_ends(base, seq!['i', 'n', 'g']);
}

/// A known word in e is the stem of the same word with ing in the place of the e, if it is not
/// known without the e.
pub proof fn law_stem_of_word_in_e_and_ing(lex: Lexicon, front: Seq<char>)
    requires
        lex.knows(front + seq!['e']),
        !lex.knows(front),
        text::utf8_len(front + seq!['i', 'n', 'g']) >= 5,
    ensures
        lex.stem_of_ing(front + seq!['i', 'n', 'g']) == Some(front + seq!['e']),
{
    reveal_strlit("ing");
    reveal_strlit("e");
    assert("ing"@ =~= seq!['i', 'n', 'g']);
    assert("e"@ =~= seq!['e']);
    lemma_ends(front, seq!['i', 'n', 'g']);
}

/// A known word whose last consonant is doubled before ing, or whose last c becomes ck, is the
/// stem of that word, if neither the double letter nor an e behind it makes a known word.
pub proof fn law_stem_of_doubled_word_and_ing(lex: Lexicon, base: Seq<char>, c: char)
    requires
        lex.knows(base),
        base.len() > 0,
        (c == base.last() && doubles(c)) || (base.last() == 'c' && c == 'k'),
        !lex.knows(base.push(c)),
        !lex.knows(base.push(c) + seq!['e']),
        text::utf8_len(base.push(c) + seq!['i', 'n', 'g']) > 5,
    ensures
        lex.stem_of_ing(base.push(c) + seq!['i', 'n', 'g']) == Some(base),
{
    let w = base.push(c) + seq!['i', 'n', 'g'];
    reveal_strlit("ing");
    reveal_strlit("e");
    assert("ing"@ =~= seq!['i', 'n', 'g']);
    assert("e"@ =~= seq!['e']);
    lemma_ends(base.push(c), seq!['i', 'n', 'g']);
    assert(w[w.len() - 4] == c);
    assert(w[w.len() - 5] == base.last());
    assert(w.take(w.len() - 4) =~= base);
}

/// Whatever is taken for the stem of a word is the word without ing, or with e in its place,
/// or without ing and the second letter of a doubled consonant or of ck; words that do not end
/// in ing, or are shorter than five bytes, have none.
pub proof fn law_stem_of_ing_shape(lex: Lexicon, w: Seq<char>)
    ensures
        text::utf8_len(w) < 5 ==> lex.stem_of_ing(w) is None,
        lex.stem_of_ing(w) matches Some(b) ==> {
            ||| w == b + seq!['i', 'n', 'g'] && text::utf8_len(w) > 5
            ||| w.len() >= 3 && b == w.take(w.len() - 3) + seq!['e'] && w == w.take(w.len() - 3)
                + seq!['i', 'n', 'g']
            ||| w.len() >= 5 && text::utf8_len(w) > 5 && b.len() > 0 && w == b.push(w[w.len() - 4])
                + seq!['i', 'n', 'g'] && ((w[w.len() - 4] == b.last() && doubles(b.last())) || (
            b.last() == 'c' && w[w.len() - 4] == 'k'))
        },
{
    reveal_strlit("ing");
    reveal_strlit("e");
    lemma_suffix_tail("ing"@, w);
    if let Some(b) = lex.stem_of_ing(w) {
        let n = w.len();
        assert("ing"@[0] == w[n - 3]);
        assert("ing"@[1] == w[n - 2]);
        assert("ing"@[2] == w[n - 1]);
        let f = w.take(n - 3);
        assert(w =~= f + seq!['i', 'n', 'g']);
        assert("e"@ =~= seq!['e']);
        if b == f {
        } else if b == f + seq!['e'] {
        } else {
            let c = w[n - 4];
            assert(b == w.take(n - 4));
            assert(w =~= b.push(c) + seq!['i', 'n', 'g']);
            assert(b.last() == w[n - 5]);
        }
    }
}

} // verus!
