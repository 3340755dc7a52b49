//! What holds of the dictionaries.

use crate::language::Language;
use crate::laws;
use crate::lexicon;
use crate::lexicon::{Lexicon, PhonemeEntry, TagTable, TokenContext};
use crate::number;
use crate::stem;
use crate::stress;
use crate::stress::Stress;
use crate::text;
use crate::unicode;
use crate::words;
use vstd::prelude::*;

verus! {

/// A table has its own entry for a word before any other, so that each casing keeps its own
/// where both exist.
pub proof fn law_own_entry_first(table: Map<Seq<char>, PhonemeEntry>, word: Seq<char>)
    requires
        table.contains_key(word),
    ensures
        lexicon::entry_of(table, word) == Some(table[word]),
{
}

/// A lowercase entry answers for the word's capitalized form, if that has no entry of its
/// own.
pub proof fn law_lowercase_entry_answers_capitalized(
    table: Map<Seq<char>, PhonemeEntry>,
    lower: Seq<char>,
)
    requires
        table.contains_key(lower),
        lexicon::capitalized(lower).len() >= 2,
        unicode::lowercase(lexicon::capitalized(lower)) == lower,
        !table.contains_key(lexicon::capitalized(lower)),
    ensures
        lexicon::entry_of(table, lexicon::capitalized(lower)) == Some(table[lower]),
{
}

/// A capitalized entry answers for the word's lowercase form, if that has no entry of its
/// own.
pub proof fn law_capitalized_entry_answers_lowercase(
    table: Map<Seq<char>, PhonemeEntry>,
    lower: Seq<char>,
)
    requires
        lower.len() >= 2,
        unicode::lowercase(lower) == lower,
        table.contains_key(lexicon::capitalized(lower)),
        !table.contains_key(lower),
    ensures
        lexicon::entry_of(table, lower) == Some(table[lexicon::capitalized(lower)]),
{
}

/// A single letter answers only itself.
pub proof fn law_single_letter_answers_itself(
    table: Map<Seq<char>, PhonemeEntry>,
    letter: Seq<char>,
)
    requires
        letter.len() == 1,
    ensures
        lexicon::entry_of(table, letter) is Some <==> table.contains_key(letter),
{
}

/// A casing that is neither all small nor capitalized answers only itself.
pub proof fn law_other_casing_answers_itself(
    table: Map<Seq<char>, PhonemeEntry>,
    word: Seq<char>,
)
    requires
        word != unicode::lowercase(word),
        word != lexicon::capitalized(unicode::lowercase(word)),
    ensures
        lexicon::entry_of(table, word) is Some <==> table.contains_key(word),
{
}

/// A table holds the entries that it was made of and nothing more: a word is in it just if
/// it has an entry, the last of its entries counts, and there are as many words as entries
/// if no word has two.
pub proof fn law_table_holds_its_entries(entries: Seq<(String, PhonemeEntry)>, word: Seq<char>)
    ensures
        lexicon::word_map(entries).contains_key(word) <==> exists|i: int|
            0 <= i < entries.len() && (#[trigger] entries[i]).0@ == word,
        forall|i: int|
            0 <= i < entries.len() && (#[trigger] entries[i]).0@ == word && (forall|j: int|
                i < j < entries.len() ==> (#[trigger] entries[j]).0@ != word)
                ==> lexicon::word_map(entries)[word] == entries[i].1,
        lexicon::word_map(entries).dom().finite(),
        (forall|i: int, j: int|
            0 <= i < j < entries.len() ==> (#[trigger] entries[i]).0@ != (#[trigger] entries[j]).0@)
            ==> lexicon::word_map(entries).dom().len() == entries.len(),
    decreases entries.len(),
{
    if entries.len() > 0 {
        let rest = entries.drop_last();
        let n = entries.len() - 1;
        law_table_holds_its_entries(rest, word);
        law_table_holds_its_entries(rest, entries[n].0@);
        assert(forall|i: int| 0 <= i < n ==> rest[i] == entries[i]);
        if lexicon::word_map(entries).contains_key(word) && entries[n].0@ != word {
            let i = choose|i: int| 0 <= i < rest.len() && (#[trigger] rest[i]).0@ == word;
            assert(entries[i].0@ == word);
        }
        assert forall|i: int|
            0 <= i < entries.len() && (#[trigger] entries[i]).0@ == word && (forall|j: int|
                i < j < entries.len() ==> (#[trigger] entries[j]).0@ != word)
            implies lexicon::word_map(entries)[word] == entries[i].1 by {
            if i < n {
                assert(entries[n].0@ != word);
                assert(rest[i].0@ == word);
            }
        }
        if forall|i: int, j: int|
            0 <= i < j < entries.len()
                ==> (#[trigger] entries[i]).0@ != (#[trigger] entries[j]).0@ {
            if lexicon::word_map(rest).contains_key(entries[n].0@) {
                let i = choose|i: int|
                    0 <= i < rest.len() && (#[trigger] rest[i]).0@ == entries[n].0@;
                assert(entries[i].0@ != entries[n].0@);
            }
            assert(lexicon::word_map(entries).dom() =~= lexicon::word_map(rest).dom().insert(
                entries[n].0@,
            ));
        }
    }
}

/// Whatever is looked up is rated 4 or 3.
pub proof fn law_lookup_rating(
    lex: Lexicon,
    word: Seq<char>,
    tag: Seq<char>,
    level: Option<Stress>,
    ctx: Option<&TokenContext>,
)
    ensures
        lex.looked_up(word, tag, level, ctx) matches Some((_, rating)) ==> rating == 3 || rating
            == 4,
{
}

/// Whatever is pronounced is rated 4 or 3.
pub proof fn law_word_rating(
    lex: Lexicon,
    word: Seq<char>,
    tag: Seq<char>,
    level: Option<Stress>,
    ctx: Option<&TokenContext>,
)
    ensures
        lex.pronounced(word, tag, level, ctx) matches Some((_, rating)) ==> rating == 3 || rating
            == 4,
{
    reveal(Lexicon::pronounced);
    lemma_special_rating(lex, word, tag, level, ctx);
}

proof fn lemma_special_rating(
    lex: Lexicon,
    word: Seq<char>,
    tag: Seq<char>,
    level: Option<Stress>,
    ctx: Option<&TokenContext>,
)
    ensures
        lex.special(word, tag, level, ctx) matches Some((_, rating)) ==> rating == 3 || rating == 4,
{
    reveal(Lexicon::special);
}

/// A certain entry counts before a likely one.
pub proof fn law_certain_entry_first(
    lex: Lexicon,
    word: Seq<char>,
    tag: Seq<char>,
    level: Option<Stress>,
    ctx: Option<&TokenContext>,
)
    requires
        lexicon::entry_of(lex.golds@, word) matches Some(e)
            && lexicon::resolved(e, tag, ctx) is Some,
    ensures
        lex.looked_up(word, tag, level, ctx) == Some(
            (
                stress::stressed(
                    lexicon::resolved(lexicon::entry_of(lex.golds@, word)->0, tag, ctx)->0,
                    level,
                ),
                4i32,
            ),
        ),
{
}

/// The special form of a word counts before its entry.
pub proof fn law_special_form_first(
    lex: Lexicon,
    word: Seq<char>,
    tag: Seq<char>,
    level: Option<Stress>,
    ctx: Option<&TokenContext>,
)
    requires
        lex.special(word, tag, level, ctx) is Some,
    ensures
        lex.pronounced(word, tag, level, ctx) == lex.special(word, tag, level, ctx),
{
    reveal(Lexicon::pronounced);
}

/// A word that a certain plain entry answers for, in its own or its other casing, is
/// pronounced as that entry says, whatever its tag: a proper noun is known from its lowercase
/// entry.
pub proof fn law_word_with_plain_entry(
    lex: Lexicon,
    word: Seq<char>,
    tag: Seq<char>,
    level: Option<Stress>,
    ctx: Option<&TokenContext>,
    ps: String,
)
    requires
        lex.special(word, tag, level, ctx) is None,
        lexicon::entry_of(lex.golds@, word) == Some(PhonemeEntry::Simple(ps)),
    ensures
        lex.pronounced(word, tag, level, ctx) == Some((stress::stressed(ps@, level), 4i32)),
{
    reveal(Lexicon::pronounced);
    assert(lex.holds(word));
    assert(!lex.folds(word, tag, level, ctx));
}

/// An entry with a pronunciation for a tag gives it, unless the entry has one for the case
/// that the next sound is not known, and it is not.
pub proof fn law_tag_decides(
    m: TagTable,
    tag: Seq<char>,
    ctx: Option<&TokenContext>,
)
    requires
        lexicon::tag_value(m@, tag) is Some,
        !m@.contains_key("None"@) || ctx is None || ctx->0.future_vowel is Some,
    ensures
        lexicon::resolved(PhonemeEntry::Tagged(m), tag, ctx) == lexicon::tag_value(m@, tag),
{
}

/// Whether a table of tags has a pronunciation for a tag.
pub open spec fn tells(m: Map<Seq<char>, Option<String>>, tag: Seq<char>) -> bool {
    m.contains_key(tag) && m[tag] is Some
}

/// Whether a table of tags has a pronunciation for the parent of a tag.
pub open spec fn parent_tells(m: Map<Seq<char>, Option<String>>, tag: Seq<char>) -> bool {
    ||| "VB"@.is_prefix_of(tag) && tells(m, "VERB"@)
    ||| "NN"@.is_prefix_of(tag) && tells(m, "NOUN"@)
    ||| ("ADV"@.is_prefix_of(tag) || "RB"@.is_prefix_of(tag)) && tells(m, "ADV"@)
    ||| ("ADJ"@.is_prefix_of(tag) || "JJ"@.is_prefix_of(tag)) && tells(m, "ADJ"@)
}

/// The parents of tags: VERB of those in VB, NOUN of those in NN, ADV of those in ADV and RB,
/// ADJ of those in ADJ and JJ. Any other tag is its own.
pub proof fn law_parent_tags(tag: Seq<char>)
    ensures
        "VB"@.is_prefix_of(tag) ==> lexicon::parent_tag(tag) == "VERB"@,
        "NN"@.is_prefix_of(tag) ==> lexicon::parent_tag(tag) == "NOUN"@,
        "ADV"@.is_prefix_of(tag) || "RB"@.is_prefix_of(tag) ==> lexicon::parent_tag(tag) == "ADV"@,
        "ADJ"@.is_prefix_of(tag) || "JJ"@.is_prefix_of(tag) ==> lexicon::parent_tag(tag) == "ADJ"@,
        !"VB"@.is_prefix_of(tag) && !"NN"@.is_prefix_of(tag) && !"ADV"@.is_prefix_of(tag)
            && !"RB"@.is_prefix_of(tag) && !"ADJ"@.is_prefix_of(tag) && !"JJ"@.is_prefix_of(tag)
            ==> lexicon::parent_tag(tag) == tag,
{
    reveal_strlit("VB");
    reveal_strlit("NN");
    reveal_strlit("ADV");
    reveal_strlit("RB");
    reveal_strlit("ADJ");
    reveal_strlit("JJ");
    lemma_prefix_head("VB"@, tag);
    lemma_prefix_head("NN"@, tag);
    lemma_prefix_head("ADV"@, tag);
    lemma_prefix_head("RB"@, tag);
    lemma_prefix_head("ADJ"@, tag);
    lemma_prefix_head("JJ"@, tag);
    if "ADV"@.is_prefix_of(tag) && "ADJ"@.is_prefix_of(tag) {
        assert(tag.subrange(0, 3)[2] == 'V');
        assert(tag.subrange(0, 3)[2] == 'J');
    }
}

proof fn lemma_prefix_head(p: Seq<char>, s: Seq<char>)
    requires
        p.len() > 0,
    ensures
        p.is_prefix_of(s) ==> s.len() > 0 && s[0] == p[0],
{
    if p.is_prefix_of(s) {
        assert(s.subrange(0, p.len() as int)[0] == p[0]);
    }
}

/// A plain entry has one pronunciation for all tags and contexts.
pub proof fn law_plain_entry_decides(ps: String, tag: Seq<char>, ctx: Option<&TokenContext>)
    ensures
        lexicon::resolved(PhonemeEntry::Simple(ps), tag, ctx) == Some(ps@),
{
}

/// What a tagged entry gives for a word: the pronunciation of the word's tag; failing that the
/// one of its parent, VERB, NOUN, ADV or ADJ; failing that the default; failing that none. So
/// where the entry does not tell the case that the next sound is not known, or the sound is
/// known, or there is no context.
pub proof fn law_tag_then_parent_then_default(
    m: TagTable,
    tag: Seq<char>,
    ctx: Option<&TokenContext>,
)
    requires
        !m@.contains_key("None"@) || ctx is None || ctx->0.future_vowel is Some,
    ensures
        tells(m@, tag) ==> lexicon::resolved(PhonemeEntry::Tagged(m), tag, ctx) == Some(
            m@[tag]->0@,
        ),
        !tells(m@, tag) && "VB"@.is_prefix_of(tag) && tells(m@, "VERB"@) ==> lexicon::resolved(
            PhonemeEntry::Tagged(m),
            tag,
            ctx,
        ) == Some(m@["VERB"@]->0@),
        !tells(m@, tag) && "NN"@.is_prefix_of(tag) && tells(m@, "NOUN"@) ==> lexicon::resolved(
            PhonemeEntry::Tagged(m),
            tag,
            ctx,
        ) == Some(m@["NOUN"@]->0@),
        !tells(m@, tag) && ("ADV"@.is_prefix_of(tag) || "RB"@.is_prefix_of(tag)) && tells(
            m@,
            "ADV"@,
        ) ==> lexicon::resolved(PhonemeEntry::Tagged(m), tag, ctx) == Some(m@["ADV"@]->0@),
        !tells(m@, tag) && ("ADJ"@.is_prefix_of(tag) || "JJ"@.is_prefix_of(tag)) && tells(
            m@,
            "ADJ"@,
        ) ==> lexicon::resolved(PhonemeEntry::Tagged(m), tag, ctx) == Some(m@["ADJ"@]->0@),
        !tells(m@, tag) && !parent_tells(m@, tag) && tells(m@, "DEFAULT"@) ==> lexicon::resolved(
            PhonemeEntry::Tagged(m),
            tag,
            ctx,
        ) == Some(m@["DEFAULT"@]->0@),
        !tells(m@, tag) && !parent_tells(m@, tag) && !tells(m@, "DEFAULT"@) ==> lexicon::resolved(
            PhonemeEntry::Tagged(m),
            tag,
            ctx,
        ) is None,
{
    law_parent_tags(tag);
}

/// Where the next sound is not known, an entry that has a place for that case gives what
/// stands there, and else its default, whatever the tag.
pub proof fn law_unknown_sound_decides(m: TagTable, tag: Seq<char>, ctx: TokenContext)
    requires
        m@.contains_key("None"@),
        ctx.future_vowel is None,
    ensures
        tells(m@, "None"@) ==> lexicon::resolved(PhonemeEntry::Tagged(m), tag, Some(&ctx)) == Some(
            m@["None"@]->0@,
        ),
        !tells(m@, "None"@) && tells(m@, "DEFAULT"@) ==> lexicon::resolved(
            PhonemeEntry::Tagged(m),
            tag,
            Some(&ctx),
        ) == Some(m@["DEFAULT"@]->0@),
        !tells(m@, "None"@) && !tells(m@, "DEFAULT"@) ==> lexicon::resolved(
            PhonemeEntry::Tagged(m),
            tag,
            Some(&ctx),
        ) is None,
{
    law_parent_tags("None"@);
    reveal_strlit("None");
    reveal_strlit("VB");
    reveal_strlit("NN");
    reveal_strlit("ADV");
    reveal_strlit("RB");
    reveal_strlit("ADJ");
    reveal_strlit("JJ");
    lemma_prefix_head("VB"@, "None"@);
    lemma_prefix_head("ADV"@, "None"@);
    lemma_prefix_head("RB"@, "None"@);
    lemma_prefix_head("ADJ"@, "None"@);
    lemma_prefix_head("JJ"@, "None"@);
    if "NN"@.is_prefix_of("None"@) {
        assert("None"@.subrange(0, 2)[1] == 'N');
    }
}

/// A table of tags holds the pairs that it was made of and nothing more, and of two pairs with
/// one tag the later one.
pub proof fn law_tag_table_holds_its_pairs(pairs: Seq<(String, Option<String>)>, tag: Seq<char>)
    ensures
        lexicon::tag_map(pairs).contains_key(tag) <==> exists|i: int|
            0 <= i < pairs.len() && (#[trigger] pairs[i]).0@ == tag,
        forall|i: int|
            0 <= i < pairs.len() && (#[trigger] pairs[i]).0@ == tag && (forall|j: int|
                i < j < pairs.len() ==> (#[trigger] pairs[j]).0@ != tag) ==> lexicon::tag_map(
                pairs,
            )[tag] == pairs[i].1,
{
    if lexicon::tag_map(pairs).contains_key(tag) {
        lemma_tag_of_a_pair(pairs, tag);
    }
    assert forall|i: int| 0 <= i < pairs.len() && (#[trigger] pairs[i]).0@ == tag implies
        lexicon::tag_map(pairs).contains_key(tag) by {
        lemma_pair_in_table(pairs, i);
    }
    assert forall|i: int|
        0 <= i < pairs.len() && (#[trigger] pairs[i]).0@ == tag && (forall|j: int|
            i < j < pairs.len() ==> (#[trigger] pairs[j]).0@ != tag) implies lexicon::tag_map(
        pairs,
    )[tag] == pairs[i].1 by {
        lemma_pair_in_table(pairs, i);
    }
}

proof fn lemma_tag_of_a_pair(pairs: Seq<(String, Option<String>)>, tag: Seq<char>)
    requires
        lexicon::tag_map(pairs).contains_key(tag),
    ensures
        exists|i: int| 0 <= i < pairs.len() && (#[trigger] pairs[i]).0@ == tag,
    decreases pairs.len(),
{
    let n = pairs.len() - 1;
    if pairs[n].0@ != tag {
        let rest = pairs.drop_last();
        lemma_tag_of_a_pair(rest, tag);
        let i = choose|i: int| 0 <= i < rest.len() && (#[trigger] rest[i]).0@ == tag;
        assert(pairs[i].0@ == tag);
    }
}

proof fn lemma_pair_in_table(pairs: Seq<(String, Option<String>)>, i: int)
    requires
        0 <= i < pairs.len(),
    ensures
        lexicon::tag_map(pairs).contains_key(pairs[i].0@),
        (forall|j: int| i < j < pairs.len() ==> (#[trigger] pairs[j]).0@ != pairs[i].0@)
            ==> lexicon::tag_map(pairs)[pairs[i].0@] == pairs[i].1,
    decreases pairs.len(),
{
    let n = pairs.len() - 1;
    if i < n {
        let rest = pairs.drop_last();
        lemma_pair_in_table(rest, i);
        assert(rest[i] == pairs[i]);
        if forall|j: int| i < j < pairs.len() ==> (#[trigger] pairs[j]).0@ != pairs[i].0@ {
            assert(pairs[n].0@ != pairs[i].0@);
            assert forall|j: int| i < j < rest.len() implies (#[trigger] rest[j]).0@
                != rest[i].0@ by {
                assert(pairs[j] == rest[j]);
            }
        }
    }
}

/// An s adds a sound or two and leaves the stem as it is.
pub proof fn law_plural_extends_stem(lang: Language, ps: Seq<char>)
    requires
        ps.len() > 0,
    ensures
        ps.is_prefix_of(stem::with_s(lang, ps)),
        ps.len() < stem::with_s(lang, ps).len() <= ps.len() + 2,
        stem::with_s(lang, ps).last() == 's' || stem::with_s(lang, ps).last() == 'z',
{
    assert(ps =~= stem::with_s(lang, ps).subrange(0, ps.len() as int));
}

/// An ed adds a sound or two. The stem stays as it is but for a final t, which American
/// speech may flap.
pub proof fn law_past_tense_extends_stem(lang: Language, ps: Seq<char>)
    requires
        ps.len() > 0,
    ensures
        ps.drop_last().is_prefix_of(stem::with_ed(lang, ps)),
        ps.is_prefix_of(stem::with_ed(lang, ps)) || (lang == Language::EnglishUS && stem::flaps(
            ps,
        )),
        ps.len() < stem::with_ed(lang, ps).len() <= ps.len() + 2,
        stem::with_ed(lang, ps).last() == 't' || stem::with_ed(lang, ps).last() == 'd',
{
    let full = stem::with_ed(lang, ps);
    assert(ps.drop_last() =~= full.subrange(0, ps.len() - 1));
    if !(lang == Language::EnglishUS && stem::flaps(ps)) {
        assert(ps =~= full.subrange(0, ps.len() as int));
    }
}

/// An ing adds its two sounds. The stem stays as it is but for a final t, which American
/// speech may flap.
pub proof fn law_continuous_tense_extends_stem(lang: Language, ps: Seq<char>)
    ensures
        stem::with_ing(lang, ps) matches Some(full) ==> {
            &&& full.len() == ps.len() + 2
            &&& full[full.len() - 2] == 'ɪ' && full.last() == 'ŋ'
            &&& ps.drop_last().is_prefix_of(full)
            &&& ps.is_prefix_of(full) || (lang == Language::EnglishUS && stem::flaps(ps))
        },
        lang == Language::EnglishUS && ps.len() > 0 ==> stem::with_ing(lang, ps) is Some,
{
    if let Some(full) = stem::with_ing(lang, ps) {
        assert(ps.drop_last() =~= full.subrange(0, ps.len() - 1));
        if !(lang == Language::EnglishUS && stem::flaps(ps)) {
            assert(ps =~= full.subrange(0, ps.len() as int));
        }
    }
}

/// A word is only ever cut down to a stem that is itself known.
pub proof fn law_stems_are_known(lex: Lexicon, lower: Seq<char>)
    ensures
        lex.stem_of_s(lower) matches Some(s) ==> lex.knows(s),
        lex.stem_of_ed(lower) matches Some(s) ==> lex.knows(s),
        lex.stem_of_ing(lower) matches Some(s) ==> lex.knows(s),
{
}

proof fn lemma_suffix_last(p: Seq<char>, s: Seq<char>)
    requires
        p.is_suffix_of(s),
        p.len() > 0,
    ensures
        s.len() >= p.len(),
        s.last() == p.last(),
{
    assert(s.subrange(s.len() - p.len(), s.len() as int)[p.len() - 1] == p[p.len() - 1]);
}

/// A lowercase word that is not known itself but is a known word with an s behind it sounds
/// like that word with an s behind it.
pub proof fn law_plural_of_a_known_word(
    lex: Lexicon,
    word: Seq<char>,
    tag: Seq<char>,
    level: Option<Stress>,
    ctx: Option<&TokenContext>,
)
    requires
        word == unicode::lowercase(word),
        lex.special(word, tag, level, ctx) is None,
        !lex.knows(word),
        lex.stem_of_s(word) matches Some(s) && lex.looked_up(s, tag, level, ctx) is Some,
    ensures
        ({
            let (ps, rating) = lex.looked_up(lex.stem_of_s(word)->0, tag, level, ctx)->0;
            lex.pronounced(word, tag, level, ctx) == Some((stem::with_s(lex.lang, ps), rating))
        }),
{
    reveal(Lexicon::pronounced);
    reveal_strlit("s");
    reveal_strlit("'");
    reveal_strlit("s'");
    lemma_suffix_last("s"@, word);
    if "'"@.is_suffix_of(word) {
        lemma_suffix_last("'"@, word);
    }
    if "s'"@.is_suffix_of(word) {
        lemma_suffix_last("s'"@, word);
    }
}

/// A lowercase word that is not known itself but is a known word with an ed behind it sounds
/// like that word with an ed behind it.
pub proof fn law_past_tense_of_a_known_word(
    lex: Lexicon,
    word: Seq<char>,
    tag: Seq<char>,
    level: Option<Stress>,
    ctx: Option<&TokenContext>,
)
    requires
        word == unicode::lowercase(word),
        lex.special(word, tag, level, ctx) is None,
        !lex.knows(word),
        lex.stem_of_ed(word) matches Some(s) && lex.looked_up(s, tag, level, ctx) is Some,
    ensures
        ({
            let (ps, rating) = lex.looked_up(lex.stem_of_ed(word)->0, tag, level, ctx)->0;
            lex.pronounced(word, tag, level, ctx) == Some((stem::with_ed(lex.lang, ps), rating))
        }),
{
    reveal(Lexicon::pronounced);
    reveal_strlit("d");
    reveal_strlit("s");
    reveal_strlit("'");
    reveal_strlit("s'");
    lemma_suffix_last("d"@, word);
    if "'"@.is_suffix_of(word) {
        lemma_suffix_last("'"@, word);
    }
    if "s'"@.is_suffix_of(word) {
        lemma_suffix_last("s'"@, word);
    }
    if "s"@.is_suffix_of(word) {
        lemma_suffix_last("s"@, word);
    }
}

/// A lowercase word that is not known itself but is a known word with an ing behind it sounds
/// like that word with an ing behind it. The known word is looked up with the stress level
/// that is asked for, or with half stress where none is.
pub proof fn law_continuous_tense_of_a_known_word(
    lex: Lexicon,
    word: Seq<char>,
    tag: Seq<char>,
    level: Option<Stress>,
    ctx: Option<&TokenContext>,
)
    requires
        word == unicode::lowercase(word),
        lex.special(word, tag, level, ctx) is None,
        !lex.knows(word),
        lex.stem_of_ing(word) matches Some(s) && lex.looked_up(
            s,
            tag,
            words::or_half(level),
            ctx,
        ) is Some,
    ensures
        ({
            let (ps, rating) = lex.looked_up(
                lex.stem_of_ing(word)->0,
                tag,
                words::or_half(level),
                ctx,
            )->0;
            lex.pronounced(word, tag, level, ctx) == match stem::with_ing(lex.lang, ps) {
                Some(full) => Some((full, rating)),
                None => None,
            }
        }),
{
    reveal(Lexicon::pronounced);
    reveal_strlit("ing");
    reveal_strlit("d");
    reveal_strlit("s");
    reveal_strlit("'");
    reveal_strlit("s'");
    lemma_suffix_last("ing"@, word);
    if "'"@.is_suffix_of(word) {
        lemma_suffix_last("'"@, word);
    }
    if "s'"@.is_suffix_of(word) {
        lemma_suffix_last("s'"@, word);
    }
    if "s"@.is_suffix_of(word) {
        lemma_suffix_last("s"@, word);
    }
    if "d"@.is_suffix_of(word) {
        lemma_suffix_last("d"@, word);
    }
}

/// A level below -1 leaves no stress mark on any word, inflected or not, but for those that
/// have a special form.
pub proof fn law_low_level_strips_every_word(
    lex: Lexicon,
    word: Seq<char>,
    tag: Seq<char>,
    level: Stress,
    ctx: Option<&TokenContext>,
)
    requires
        level.quarters < -4,
        lex.special(word, tag, Some(level), ctx) is None,
    ensures
        lex.pronounced(word, tag, Some(level), ctx) matches Some((ps, _))
            ==> laws::stress::is_unstressed(ps),
{
    reveal(Lexicon::pronounced);
    let w = if lex.folds(word, tag, Some(level), ctx) {
        unicode::lowercase(word)
    } else {
        word
    };
    let n = w.len();
    let lower = unicode::lowercase(w);
    lemma_lookup_stripped(lex, w, tag, level, ctx);
    lemma_lookup_stripped(lex, w.take(n - 2) + "'s"@, tag, level, ctx);
    lemma_lookup_stripped(lex, w.take(n - 1), tag, level, ctx);
    lemma_stem_stripped(lex, lex.stem_of_s(lower), tag, level, ctx);
    lemma_stem_stripped(lex, lex.stem_of_ed(lower), tag, level, ctx);
    lemma_stem_stripped(lex, lex.stem_of_ing(lower), tag, level, ctx);
}

/// A stem's pronunciation holds no mark, nor does it with an ending behind it.
proof fn lemma_stem_stripped(
    lex: Lexicon,
    stem: Option<Seq<char>>,
    tag: Seq<char>,
    level: Stress,
    ctx: Option<&TokenContext>,
)
    requires
        level.quarters < -4,
    ensures
        stem matches Some(key) ==> (lex.looked_up(key, tag, Some(level), ctx) matches Some((ps, _))
            ==> {
            &&& laws::stress::is_unstressed(stem::with_s(lex.lang, ps))
            &&& laws::stress::is_unstressed(stem::with_ed(lex.lang, ps))
            &&& stem::with_ing(lex.lang, ps) matches Some(full)
                ==> laws::stress::is_unstressed(full)
        }),
{
    if let Some(key) = stem {
        lemma_lookup_stripped(lex, key, tag, level, ctx);
        if let Some((ps, _)) = lex.looked_up(key, tag, Some(level), ctx) {
            lemma_endings_unstressed(lex.lang, ps);
        }
    }
}

proof fn lemma_endings_unstressed(lang: Language, ps: Seq<char>)
    requires
        laws::stress::is_unstressed(ps),
    ensures
        laws::stress::is_unstressed(stem::with_s(lang, ps)),
        laws::stress::is_unstressed(stem::with_ed(lang, ps)),
        stem::with_ing(lang, ps) matches Some(full) ==> laws::stress::is_unstressed(full),
{
    let s = stem::with_s(lang, ps);
    let ed = stem::with_ed(lang, ps);
    assert(forall|i: int| 0 <= i < ps.len() ==> ps.contains(#[trigger] ps[i]));
    assert(forall|i: int| 0 <= i < s.len() ==> !stress::is_mark(#[trigger] s[i]));
    assert(forall|i: int| 0 <= i < ed.len() ==> !stress::is_mark(#[trigger] ed[i]));
    if let Some(ing) = stem::with_ing(lang, ps) {
        assert(forall|i: int| 0 <= i < ing.len() ==> !stress::is_mark(#[trigger] ing[i]));
    }
}

proof fn lemma_lookup_stripped(
    lex: Lexicon,
    key: Seq<char>,
    tag: Seq<char>,
    level: Stress,
    ctx: Option<&TokenContext>,
)
    requires
        level.quarters < -4,
    ensures
        lex.looked_up(key, tag, Some(level), ctx) matches Some((ps, _))
            ==> laws::stress::is_unstressed(ps),
{
    assert forall|ps: Seq<char>|
        laws::stress::is_unstressed(#[trigger] stress::stressed(ps, Some(level))) by {
        laws::stress::law_low_level_strips_stress(ps, level);
    }
}

/// Commas among the digits of a number make no difference.
pub proof fn law_commas_make_no_difference(word: Seq<char>)
    ensures
        number::number_in(text::without(word, ',')) == number::number_in(word),
{
    lemma_without_twice(word, ',');
}

proof fn lemma_without_twice(s: Seq<char>, c: char)
    ensures
        text::without(text::without(s, c), c) == text::without(s, c),
    decreases s.len(),
{
    if s.len() == 0 {
        reveal(Seq::filter);
        assert(text::without(s, c) =~= s);
    } else {
        let t = s.drop_last();
        assert(s =~= t.push(s.last()));
        lemma_without_twice(t, c);
        text::lemma_without_push(t, c, s.last());
        text::lemma_without_push(text::without(t, c), c, s.last());
    }
}

} // verus!
