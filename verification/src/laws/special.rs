//! What the words with a form of their own sound like, for every tag and context.

use crate::g2p::G2P;
use crate::laws;
use crate::lexicon;
use crate::lexicon::{Lexicon, PhonemeEntry, TokenContext};
use crate::outcome;
use crate::sounds;
use crate::stress::Stress;
use crate::text;
use crate::token::Token;
use crate::unicode;
use crate::words;
use vstd::prelude::*;

verus! {

/// A pronunciation with the rating of a certain entry.
pub open spec fn sure(ps: Seq<char>) -> Option<(Seq<char>, i32)> {
    Some((ps, 4i32))
}

/// Whether the next sound is known to be a vowel.
pub open spec fn vowel_next(ctx: Option<&TokenContext>) -> bool {
    ctx is Some && ctx->0.future_vowel == Some(true)
}

/// Whether the next sound is known to be a consonant.
pub open spec fn consonant_next(ctx: Option<&TokenContext>) -> bool {
    ctx is Some && ctx->0.future_vowel == Some(false)
}

/// The next sound is a vowel, a consonant, or not known.
proof fn lemma_next_sound(ctx: Option<&TokenContext>)
    ensures
        words::next_sound(ctx) == Some(true) <==> vowel_next(ctx),
        words::next_sound(ctx) == Some(false) <==> consonant_next(ctx),
        words::next_sound(ctx) is None <==> !vowel_next(ctx) && !consonant_next(ctx),
{
    if let Some(c) = ctx {
        if let Some(b) = c.future_vowel {
            assert(b == true || b == false);
        }
    }
}

/// The symbols with names are %, &, + and @, and in addresses the dot and the slash.
pub proof fn law_symbols_have_names(s: Seq<char>)
    ensures
        lexicon::named_symbols().contains_key(s) <==> s == seq!['%'] || s == seq!['&'] || s == seq![
            '+',
        ] || s == seq!['@'],
        lexicon::named_symbols()[seq!['%']]@ == "percent"@,
        lexicon::named_symbols()[seq!['&']]@ == "and"@,
        lexicon::named_symbols()[seq!['+']]@ == "plus"@,
        lexicon::named_symbols()[seq!['@']]@ == "at"@,
        lexicon::address_symbols().contains_key(s) <==> s == seq!['.'] || s == seq!['/'],
        lexicon::address_symbols()[seq!['.']]@ == "dot"@,
        lexicon::address_symbols()[seq!['/']]@ == "slash"@,
{
    reveal_strlit("%");
    reveal_strlit("&");
    reveal_strlit("+");
    reveal_strlit("@");
    reveal_strlit(".");
    reveal_strlit("/");
    assert("%"@ =~= seq!['%']);
    assert("&"@ =~= seq!['&']);
    assert("+"@ =~= seq!['+']);
    assert("@"@ =~= seq!['@']);
    assert("."@ =~= seq!['.']);
    assert("/"@ =~= seq!['/']);
    assert("%"@[0] != "&"@[0] && "%"@[0] != "+"@[0] && "%"@[0] != "@"@[0]);
    assert("&"@[0] != "+"@[0] && "&"@[0] != "@"@[0] && "+"@[0] != "@"@[0]);
    assert("."@[0] != "/"@[0]);
}

/// A word that starts with a letter and holds no dot is neither a symbol nor an abbreviation.
proof fn lemma_plain_word(w: Seq<char>)
    requires
        w.len() > 0,
        'a' <= w[0] <= 'z' || 'A' <= w[0] <= 'Z',
        forall|i: int| 0 <= i < w.len() ==> #[trigger] w[i] != '.',
    ensures
        !lexicon::named_symbols().contains_key(w),
        !lexicon::address_symbols().contains_key(w),
        !words::is_dotted(w),
{
    law_symbols_have_names(w);
    assert(seq!['%'][0] == '%' && seq!['&'][0] == '&' && seq!['+'][0] == '+' && seq!['@'][0] == '@'
        && seq!['.'][0] == '.' && seq!['/'][0] == '/');
}

/// A word is one of those with a form of their own exactly if it has its letters.
proof fn lemma_spelling(w: Seq<char>)
    ensures
        w == "a"@ <==> w.len() == 1 && w[0] == 'a',
        w == "A"@ <==> w.len() == 1 && w[0] == 'A',
        w == "an"@ <==> w.len() == 2 && w[0] == 'a' && w[1] == 'n',
        w == "An"@ <==> w.len() == 2 && w[0] == 'A' && w[1] == 'n',
        w == "AN"@ <==> w.len() == 2 && w[0] == 'A' && w[1] == 'N',
        w == "I"@ <==> w.len() == 1 && w[0] == 'I',
        w == "am"@ <==> w.len() == 2 && w[0] == 'a' && w[1] == 'm',
        w == "Am"@ <==> w.len() == 2 && w[0] == 'A' && w[1] == 'm',
        w == "AM"@ <==> w.len() == 2 && w[0] == 'A' && w[1] == 'M',
        w == "by"@ <==> w.len() == 2 && w[0] == 'b' && w[1] == 'y',
        w == "By"@ <==> w.len() == 2 && w[0] == 'B' && w[1] == 'y',
        w == "BY"@ <==> w.len() == 2 && w[0] == 'B' && w[1] == 'Y',
        w == "to"@ <==> w.len() == 2 && w[0] == 't' && w[1] == 'o',
        w == "To"@ <==> w.len() == 2 && w[0] == 'T' && w[1] == 'o',
        w == "TO"@ <==> w.len() == 2 && w[0] == 'T' && w[1] == 'O',
        w == "in"@ <==> w.len() == 2 && w[0] == 'i' && w[1] == 'n',
        w == "In"@ <==> w.len() == 2 && w[0] == 'I' && w[1] == 'n',
        w == "IN"@ <==> w.len() == 2 && w[0] == 'I' && w[1] == 'N',
        w == "the"@ <==> w.len() == 3 && w[0] == 't' && w[1] == 'h' && w[2] == 'e',
        w == "The"@ <==> w.len() == 3 && w[0] == 'T' && w[1] == 'h' && w[2] == 'e',
        w == "THE"@ <==> w.len() == 3 && w[0] == 'T' && w[1] == 'H' && w[2] == 'E',
        w == "used"@ <==> w.len() == 4 && w[0] == 'u' && w[1] == 's' && w[2] == 'e' && w[3] == 'd',
        w == "Used"@ <==> w.len() == 4 && w[0] == 'U' && w[1] == 's' && w[2] == 'e' && w[3] == 'd',
        w == "USED"@ <==> w.len() == 4 && w[0] == 'U' && w[1] == 'S' && w[2] == 'E' && w[3] == 'D',
{
    lemma_is_article(w);
    lemma_is_pronoun(w);
    lemma_is_preposition(w);
    lemma_is_other(w);
}

proof fn lemma_is_article(w: Seq<char>)
    ensures
        w == "a"@ <==> w.len() == 1 && w[0] == 'a',
        w == "A"@ <==> w.len() == 1 && w[0] == 'A',
        w == "an"@ <==> w.len() == 2 && w[0] == 'a' && w[1] == 'n',
        w == "An"@ <==> w.len() == 2 && w[0] == 'A' && w[1] == 'n',
        w == "AN"@ <==> w.len() == 2 && w[0] == 'A' && w[1] == 'N',
{
    reveal_strlit("a");
    assert(w.len() == 1 && w[0] == 'a' ==> w =~= "a"@);
    reveal_strlit("A");
    assert(w.len() == 1 && w[0] == 'A' ==> w =~= "A"@);
    reveal_strlit("an");
    assert(w.len() == 2 && w[0] == 'a' && w[1] == 'n' ==> w =~= "an"@);
    reveal_strlit("An");
    assert(w.len() == 2 && w[0] == 'A' && w[1] == 'n' ==> w =~= "An"@);
    reveal_strlit("AN");
    assert(w.len() == 2 && w[0] == 'A' && w[1] == 'N' ==> w =~= "AN"@);
}

proof fn lemma_is_pronoun(w: Seq<char>)
    ensures
        w == "I"@ <==> w.len() == 1 && w[0] == 'I',
        w == "am"@ <==> w.len() == 2 && w[0] == 'a' && w[1] == 'm',
        w == "Am"@ <==> w.len() == 2 && w[0] == 'A' && w[1] == 'm',
        w == "AM"@ <==> w.len() == 2 && w[0] == 'A' && w[1] == 'M',
{
    reveal_strlit("I");
    assert(w.len() == 1 && w[0] == 'I' ==> w =~= "I"@);
    reveal_strlit("am");
    assert(w.len() == 2 && w[0] == 'a' && w[1] == 'm' ==> w =~= "am"@);
    reveal_strlit("Am");
    assert(w.len() == 2 && w[0] == 'A' && w[1] == 'm' ==> w =~= "Am"@);
    reveal_strlit("AM");
    assert(w.len() == 2 && w[0] == 'A' && w[1] == 'M' ==> w =~= "AM"@);
}

proof fn lemma_is_preposition(w: Seq<char>)
    ensures
        w == "by"@ <==> w.len() == 2 && w[0] == 'b' && w[1] == 'y',
        w == "By"@ <==> w.len() == 2 && w[0] == 'B' && w[1] == 'y',
        w == "BY"@ <==> w.len() == 2 && w[0] == 'B' && w[1] == 'Y',
        w == "to"@ <==> w.len() == 2 && w[0] == 't' && w[1] == 'o',
        w == "To"@ <==> w.len() == 2 && w[0] == 'T' && w[1] == 'o',
        w == "TO"@ <==> w.len() == 2 && w[0] == 'T' && w[1] == 'O',
        w == "in"@ <==> w.len() == 2 && w[0] == 'i' && w[1] == 'n',
        w == "In"@ <==> w.len() == 2 && w[0] == 'I' && w[1] == 'n',
        w == "IN"@ <==> w.len() == 2 && w[0] == 'I' && w[1] == 'N',
{
    reveal_strlit("by");
    assert(w.len() == 2 && w[0] == 'b' && w[1] == 'y' ==> w =~= "by"@);
    reveal_strlit("By");
    assert(w.len() == 2 && w[0] == 'B' && w[1] == 'y' ==> w =~= "By"@);
    reveal_strlit("BY");
    assert(w.len() == 2 && w[0] == 'B' && w[1] == 'Y' ==> w =~= "BY"@);
    reveal_strlit("to");
    assert(w.len() == 2 && w[0] == 't' && w[1] == 'o' ==> w =~= "to"@);
    reveal_strlit("To");
    assert(w.len() == 2 && w[0] == 'T' && w[1] == 'o' ==> w =~= "To"@);
    reveal_strlit("TO");
    assert(w.len() == 2 && w[0] == 'T' && w[1] == 'O' ==> w =~= "TO"@);
    reveal_strlit("in");
    assert(w.len() == 2 && w[0] == 'i' && w[1] == 'n' ==> w =~= "in"@);
    reveal_strlit("In");
    assert(w.len() == 2 && w[0] == 'I' && w[1] == 'n' ==> w =~= "In"@);
    reveal_strlit("IN");
    assert(w.len() == 2 && w[0] == 'I' && w[1] == 'N' ==> w =~= "IN"@);
}

proof fn lemma_is_other(w: Seq<char>)
    ensures
        w == "the"@ <==> w.len() == 3 && w[0] == 't' && w[1] == 'h' && w[2] == 'e',
        w == "The"@ <==> w.len() == 3 && w[0] == 'T' && w[1] == 'h' && w[2] == 'e',
        w == "THE"@ <==> w.len() == 3 && w[0] == 'T' && w[1] == 'H' && w[2] == 'E',
        w == "used"@ <==> w.len() == 4 && w[0] == 'u' && w[1] == 's' && w[2] == 'e' && w[3] == 'd',
        w == "Used"@ <==> w.len() == 4 && w[0] == 'U' && w[1] == 's' && w[2] == 'e' && w[3] == 'd',
        w == "USED"@ <==> w.len() == 4 && w[0] == 'U' && w[1] == 'S' && w[2] == 'E' && w[3] == 'D',
{
    reveal_strlit("the");
    assert(w.len() == 3 && w[0] == 't' && w[1] == 'h' && w[2] == 'e' ==> w =~= "the"@);
    reveal_strlit("The");
    assert(w.len() == 3 && w[0] == 'T' && w[1] == 'h' && w[2] == 'e' ==> w =~= "The"@);
    reveal_strlit("THE");
    assert(w.len() == 3 && w[0] == 'T' && w[1] == 'H' && w[2] == 'E' ==> w =~= "THE"@);
    reveal_strlit("used");
    assert(w.len() == 4 && w[0] == 'u' && w[1] == 's' && w[2] == 'e' && w[3] == 'd'
        ==> w =~= "used"@);
    reveal_strlit("Used");
    assert(w.len() == 4 && w[0] == 'U' && w[1] == 's' && w[2] == 'e' && w[3] == 'd'
        ==> w =~= "Used"@);
    reveal_strlit("USED");
    assert(w.len() == 4 && w[0] == 'U' && w[1] == 'S' && w[2] == 'E' && w[3] == 'D'
        ==> w =~= "USED"@);
}

proof fn lemma_word_a(
    lex: Lexicon,
    word: Seq<char>,
    tag: Seq<char>,
    level: Option<Stress>,
    ctx: Option<&TokenContext>,
)
    requires
        word.len() == 1,
        word[0] == 'a' || word[0] == 'A',
    ensures
        lex.special(word, tag, level, ctx) == (if tag == "DT"@ {
            sure("ɐ"@)
        } else {
            sure("ˈA"@)
        }),
{
    assert(word == "a"@ || word == "A"@) by {
        lemma_spelling(word);
    }
    lemma_plain_word(word);
    reveal(Lexicon::special);
}

proof fn lemma_word_am(
    lex: Lexicon,
    word: Seq<char>,
    tag: Seq<char>,
    level: Option<Stress>,
    ctx: Option<&TokenContext>,
)
    requires
        word.len() == 2,
        (word[0] == 'a' && word[1] == 'm') || (word[0] == 'A' && word[1] == 'm') || (word[0] == 'A'
            && word[1] == 'M'),
    ensures
        lex.special(word, tag, level, ctx) == lex.special_am(word, tag, level, ctx),
{
    assert(word != "a"@ && word != "A"@ && (word == "am"@ || word == "Am"@ || word == "AM"@)) by {
        lemma_spelling(word);
    }
    lemma_plain_word(word);
    reveal(Lexicon::special);
}

proof fn lemma_word_an(
    lex: Lexicon,
    word: Seq<char>,
    tag: Seq<char>,
    level: Option<Stress>,
    ctx: Option<&TokenContext>,
)
    requires
        word.len() == 2,
        (word[0] == 'a' && word[1] == 'n') || (word[0] == 'A' && word[1] == 'n') || (word[0] == 'A'
            && word[1] == 'N'),
    ensures
        lex.special(word, tag, level, ctx) == (if word[1] == 'N' && "NN"@.is_prefix_of(tag) {
            lexicon::spelt(lex.golds@, word)
        } else {
            sure("ɐn"@)
        }),
{
    assert(word != "a"@ && word != "A"@ && word != "am"@ && word != "Am"@ && word != "AM"@
        && (word == "an"@ || word == "An"@ || word == "AN"@)
        && (word == "AN"@ <==> word[1] == 'N')) by {
        lemma_spelling(word);
    }
    lemma_plain_word(word);
    reveal(Lexicon::special);
}

proof fn lemma_word_to(
    lex: Lexicon,
    word: Seq<char>,
    tag: Seq<char>,
    level: Option<Stress>,
    ctx: Option<&TokenContext>,
)
    requires
        word.len() == 2,
        (word[0] == 't' && word[1] == 'o') || (word[0] == 'T' && word[1] == 'o') || (word[0] == 'T'
            && word[1] == 'O' && (tag == "TO"@ || tag == "IN"@)),
    ensures
        lex.special(word, tag, level, ctx) == lex.special_to(ctx),
{
    assert(word != "a"@ && word != "A"@ && word != "am"@ && word != "Am"@ && word != "AM"@
        && word != "an"@ && word != "An"@ && word != "AN"@ && word != "I"@ && word != "by"@
        && word != "By"@ && word != "BY"@ && (word == "to"@ || word == "To"@ || (word == "TO"@
        && (tag == "TO"@ || tag == "IN"@)))) by {
        lemma_spelling(word);
    }
    lemma_plain_word(word);
    reveal(Lexicon::special);
}

proof fn lemma_word_in(
    lex: Lexicon,
    word: Seq<char>,
    tag: Seq<char>,
    level: Option<Stress>,
    ctx: Option<&TokenContext>,
)
    requires
        word.len() == 2,
        (word[0] == 'i' && word[1] == 'n') || (word[0] == 'I' && word[1] == 'n') || (word[0] == 'I'
            && word[1] == 'N' && tag != "NNP"@),
    ensures
        lex.special(word, tag, level, ctx) == (if words::next_sound(ctx) is None || tag != "IN"@ {
            sure("ˈɪn"@)
        } else {
            sure("ɪn"@)
        }),
{
    assert(word != "a"@ && word != "A"@ && word != "am"@ && word != "Am"@ && word != "AM"@
        && word != "an"@ && word != "An"@ && word != "AN"@ && word != "I"@ && word != "by"@
        && word != "By"@ && word != "BY"@ && word != "to"@ && word != "To"@ && word != "TO"@
        && (word == "in"@ || word == "In"@ || (word == "IN"@ && tag != "NNP"@))) by {
        lemma_spelling(word);
    }
    lemma_plain_word(word);
    reveal(Lexicon::special);
}

proof fn lemma_word_the(
    lex: Lexicon,
    word: Seq<char>,
    tag: Seq<char>,
    level: Option<Stress>,
    ctx: Option<&TokenContext>,
)
    requires
        word.len() == 3,
        (word[0] == 't' && word[1] == 'h' && word[2] == 'e') || (word[0] == 'T' && word[1] == 'h'
            && word[2] == 'e') || (word[0] == 'T' && word[1] == 'H' && word[2] == 'E' && tag
            == "DT"@),
    ensures
        lex.special(word, tag, level, ctx) == (if words::next_sound(ctx) == Some(true) {
            sure("ði"@)
        } else {
            sure("ðə"@)
        }),
{
    assert(word != "a"@ && word != "A"@ && word != "am"@ && word != "Am"@ && word != "AM"@
        && word != "an"@ && word != "An"@ && word != "AN"@ && word != "I"@ && word != "by"@
        && word != "By"@ && word != "BY"@ && word != "to"@ && word != "To"@ && word != "TO"@
        && word != "in"@ && word != "In"@ && word != "IN"@ && (word == "the"@ || word == "The"@
        || (word == "THE"@ && tag == "DT"@))) by {
        lemma_spelling(word);
    }
    lemma_plain_word(word);
    reveal(Lexicon::special);
}

proof fn lemma_word_used(
    lex: Lexicon,
    word: Seq<char>,
    tag: Seq<char>,
    level: Option<Stress>,
    ctx: Option<&TokenContext>,
)
    requires
        word.len() == 4,
        (word[0] == 'u' && word[1] == 's' && word[2] == 'e' && word[3] == 'd') || (word[0] == 'U'
            && word[1] == 's' && word[2] == 'e' && word[3] == 'd') || (word[0] == 'U' && word[1]
            == 'S' && word[2] == 'E' && word[3] == 'D'),
        tag == "IN"@ ==> unicode::lowercase(word) != "vs"@ && unicode::lowercase(word) != "vs."@,
    ensures
        lex.special(word, tag, level, ctx) == lex.special_used(tag, ctx),
{
    assert(word != "a"@ && word != "A"@ && word != "am"@ && word != "Am"@ && word != "AM"@
        && word != "an"@ && word != "An"@ && word != "AN"@ && word != "I"@ && word != "by"@
        && word != "By"@ && word != "BY"@ && word != "to"@ && word != "To"@ && word != "TO"@
        && word != "in"@ && word != "In"@ && word != "IN"@ && word != "the"@ && word != "The"@
        && word != "THE"@ && (word == "used"@ || word == "Used"@ || word == "USED"@)) by {
        lemma_spelling(word);
    }
    lemma_plain_word(word);
    reveal(Lexicon::special);
}

proof fn lemma_word_i(
    lex: Lexicon,
    word: Seq<char>,
    tag: Seq<char>,
    level: Option<Stress>,
    ctx: Option<&TokenContext>,
)
    requires
        word.len() == 1,
        word[0] == 'I',
        tag == "PRP"@,
    ensures
        lex.special(word, tag, level, ctx) == sure("ˌI"@),
{
    assert(word != "a"@ && word != "A"@ && word != "am"@ && word != "Am"@ && word != "AM"@
        && word != "an"@ && word != "An"@ && word != "AN"@ && word == "I"@) by {
        lemma_spelling(word);
    }
    lemma_plain_word(word);
    reveal(Lexicon::special);
}

proof fn lemma_word_by(
    lex: Lexicon,
    word: Seq<char>,
    tag: Seq<char>,
    level: Option<Stress>,
    ctx: Option<&TokenContext>,
)
    requires
        word.len() == 2,
        (word[0] == 'b' && word[1] == 'y') || (word[0] == 'B' && word[1] == 'y') || (word[0] == 'B'
            && word[1] == 'Y'),
        lexicon::parent_tag(tag) == "ADV"@,
    ensures
        lex.special(word, tag, level, ctx) == sure("bˈI"@),
{
    assert(word != "a"@ && word != "A"@ && word != "am"@ && word != "Am"@ && word != "AM"@
        && word != "an"@ && word != "An"@ && word != "AN"@ && word != "I"@ && (word == "by"@
        || word == "By"@ || word == "BY"@)) by {
        lemma_spelling(word);
    }
    lemma_plain_word(word);
    reveal(Lexicon::special);
}

/// The article a is ɐ as a determiner and ˈA otherwise.
pub proof fn law_word_a(
    lex: Lexicon,
    tag: Seq<char>,
    level: Option<Stress>,
    ctx: Option<&TokenContext>,
)
    ensures
        tag == "DT"@ ==> lex.special(seq!['a'], tag, level, ctx) == sure("ɐ"@) && lex.special(
            seq!['A'],
            tag,
            level,
            ctx,
        ) == sure("ɐ"@),
        tag != "DT"@ ==> lex.special(seq!['a'], tag, level, ctx) == sure("ˈA"@) && lex.special(
            seq!['A'],
            tag,
            level,
            ctx,
        ) == sure("ˈA"@),
{
    lemma_word_a(lex, seq!['a'], tag, level, ctx);
    lemma_word_a(lex, seq!['A'], tag, level, ctx);
}

/// The article the is ði before a vowel and ðə otherwise, small or capitalized, and in capitals
/// as a determiner.
pub proof fn law_word_the(
    lex: Lexicon,
    word: Seq<char>,
    tag: Seq<char>,
    level: Option<Stress>,
    ctx: Option<&TokenContext>,
)
    requires
        word == seq!['t', 'h', 'e'] || word == seq!['T', 'h', 'e'] || (word == seq!['T', 'H', 'E']
            && tag == "DT"@),
    ensures
        vowel_next(ctx) ==> lex.special(word, tag, level, ctx) == sure("ði"@),
        !vowel_next(ctx) ==> lex.special(word, tag, level, ctx) == sure("ðə"@),
{
    lemma_next_sound(ctx);
    lemma_word_the(lex, word, tag, level, ctx);
}

/// The word an is ɐn, but for a noun in capitals, which is spelt.
pub proof fn law_word_an(
    lex: Lexicon,
    word: Seq<char>,
    tag: Seq<char>,
    level: Option<Stress>,
    ctx: Option<&TokenContext>,
)
    requires
        word == seq!['a', 'n'] || word == seq!['A', 'n'] || word == seq!['A', 'N'],
    ensures
        word == seq!['A', 'N'] && "NN"@.is_prefix_of(tag) ==> lex.special(word, tag, level, ctx)
            == lexicon::spelt(lex.golds@, word),
        !(word == seq!['A', 'N'] && "NN"@.is_prefix_of(tag)) ==> lex.special(word, tag, level, ctx)
            == sure("ɐn"@),
{
    assert(word == seq!['A', 'N'] <==> word[1] == 'N');
    lemma_word_an(lex, word, tag, level, ctx);
}

/// The word am is spelt as a noun. Else it has its own certain entry where the next sound is
/// not known, it is not all small, or it is stressed; and ɐm otherwise, or where there is no
/// such entry.
pub proof fn law_word_am(
    lex: Lexicon,
    word: Seq<char>,
    tag: Seq<char>,
    level: Option<Stress>,
    ctx: Option<&TokenContext>,
)
    requires
        word == seq!['a', 'm'] || word == seq!['A', 'm'] || word == seq!['A', 'M'],
    ensures
        "NN"@.is_prefix_of(tag) ==> lex.special(word, tag, level, ctx) == lexicon::spelt(
            lex.golds@,
            word,
        ),
        !"NN"@.is_prefix_of(tag) ==> {
            let full = (!vowel_next(ctx) && !consonant_next(ctx)) || word != seq!['a', 'm']
                || (level
                is Some && level->0.quarters > 0);
            let key = seq!['a', 'm'];
            &&& full && lex.golds@.contains_key(key) ==> (lex.golds@[key] matches
                PhonemeEntry::Simple(ps) ==> lex.special(word, tag, level, ctx) == sure(ps@))
            &&& !full || !lex.golds@.contains_key(key) || lex.golds@[key] is Tagged
                ==> lex.special(word, tag, level, ctx) == sure("ɐm"@)
        },
{
    lemma_next_sound(ctx);
    lemma_is_pronoun(word);
    lemma_is_pronoun(seq!['a', 'm']);
    lemma_word_am(lex, word, tag, level, ctx);
}

/// The word I is ˌI as a pronoun.
pub proof fn law_word_i(
    lex: Lexicon,
    level: Option<Stress>,
    ctx: Option<&TokenContext>,
)
    ensures
        lex.special(seq!['I'], "PRP"@, level, ctx) == sure("ˌI"@),
{
    lemma_word_i(lex, seq!['I'], "PRP"@, level, ctx);
}

/// The word by is bˈI as an adverb.
pub proof fn law_word_by(
    lex: Lexicon,
    word: Seq<char>,
    tag: Seq<char>,
    level: Option<Stress>,
    ctx: Option<&TokenContext>,
)
    requires
        word == seq!['b', 'y'] || word == seq!['B', 'y'] || word == seq!['B', 'Y'],
        "RB"@.is_prefix_of(tag) || "ADV"@.is_prefix_of(tag),
    ensures
        lex.special(word, tag, level, ctx) == sure("bˈI"@),
{
    lemma_parent_adv(tag);
    lemma_word_by(lex, word, tag, level, ctx);
}

/// The tags of adverbs.
proof fn lemma_parent_adv(tag: Seq<char>)
    ensures
        lexicon::parent_tag(tag) == "ADV"@ <==> "RB"@.is_prefix_of(tag) || "ADV"@.is_prefix_of(
            tag,
        ),
{
    laws::lexicon::law_parent_tags(tag);
    reveal_strlit("ADV");
    reveal_strlit("VERB");
    reveal_strlit("NOUN");
    reveal_strlit("ADJ");
    reveal_strlit("VB");
    reveal_strlit("NN");
    reveal_strlit("RB");
    reveal_strlit("JJ");
    assert("VERB"@[0] != "ADV"@[0]);
    assert("NOUN"@[0] != "ADV"@[0]);
    assert("ADJ"@[2] != "ADV"@[2]);
    if "RB"@.is_prefix_of(tag) {
        assert(tag.subrange(0, 2)[0] == 'R');
        if "VB"@.is_prefix_of(tag) {
            assert("VB"@[0] == tag.subrange(0, 2)[0]);
        }
        if "NN"@.is_prefix_of(tag) {
            assert("NN"@[0] == tag.subrange(0, 2)[0]);
        }
    }
    if "ADV"@.is_prefix_of(tag) {
        assert(tag.subrange(0, 3)[0] == 'A');
        assert(tag[0] == 'A');
        if "VB"@.is_prefix_of(tag) {
            assert("VB"@[0] == tag.subrange(0, 2)[0]);
        }
        if "NN"@.is_prefix_of(tag) {
            assert("NN"@[0] == tag.subrange(0, 2)[0]);
        }
    }
    if tag == "ADV"@ {
        assert(tag.subrange(0, 3) =~= tag);
    }
}

/// The word to follows the next sound, where it has a certain plain entry: that entry where
/// the sound is not known, tʊ before a vowel and tə before a consonant. In capitals only with
/// the tags TO and IN.
pub proof fn law_word_to(
    lex: Lexicon,
    word: Seq<char>,
    tag: Seq<char>,
    level: Option<Stress>,
    ctx: Option<&TokenContext>,
)
    requires
        word == seq!['t', 'o'] || word == seq!['T', 'o'] || (word == seq!['T', 'O'] && (tag
            == "TO"@ || tag == "IN"@)),
    ensures
        ({
            let key = seq!['t', 'o'];
            &&& lex.golds@.contains_key(key) && lex.golds@[key] is Simple ==> {
                &&& vowel_next(ctx) ==> lex.special(word, tag, level, ctx) == sure("tʊ"@)
                &&& consonant_next(ctx) ==> lex.special(word, tag, level, ctx) == sure("tə"@)
                &&& !vowel_next(ctx) && !consonant_next(ctx) ==> (lex.golds@[key] matches
                    PhonemeEntry::Simple(ps) ==> lex.special(word, tag, level, ctx) == sure(ps@))
            }
            &&& !lex.golds@.contains_key(key) || lex.golds@[key] is Tagged ==> lex.special(
                word,
                tag,
                level,
                ctx,
            ) is None
        }),
{
    lemma_next_sound(ctx);
    lemma_is_preposition(seq!['t', 'o']);
    lemma_word_to(lex, word, tag, level, ctx);
}

/// The word in is ɪn, with primary stress where the next sound is not known or it is no
/// preposition. In capitals it has no form of its own as a proper noun.
pub proof fn law_word_in(
    lex: Lexicon,
    word: Seq<char>,
    tag: Seq<char>,
    level: Option<Stress>,
    ctx: Option<&TokenContext>,
)
    requires
        word == seq!['i', 'n'] || word == seq!['I', 'n'] || (word == seq!['I', 'N'] && tag
            != "NNP"@),
    ensures
        tag == "IN"@ && (vowel_next(ctx) || consonant_next(ctx)) ==> lex.special(
            word,
            tag,
            level,
            ctx,
        ) == sure("ɪn"@),
        !(tag == "IN"@ && (vowel_next(ctx) || consonant_next(ctx))) ==> lex.special(
            word,
            tag,
            level,
            ctx,
        ) == sure("ˈɪn"@),
{
    lemma_next_sound(ctx);
    lemma_word_in(lex, word, tag, level, ctx);
}

/// The word used sounds like its past tense before to, as a past tense or an adjective, if its
/// certain entry has one; else as the entry's default, if it has one; and has no form of its
/// own otherwise.
pub proof fn law_word_used(
    lex: Lexicon,
    word: Seq<char>,
    tag: Seq<char>,
    level: Option<Stress>,
    ctx: Option<&TokenContext>,
)
    requires
        word == seq!['u', 's', 'e', 'd'] || word == seq!['U', 's', 'e', 'd'] || word == seq![
            'U',
            'S',
            'E',
            'D',
        ],
        tag == "IN"@ ==> unicode::lowercase(word) != seq!['v', 's'] && unicode::lowercase(word)
            != seq!['v', 's', '.'],
    ensures
        ({
            let key = seq!['u', 's', 'e', 'd'];
            let habit = (tag == "VBD"@ || tag == "JJ"@) && ctx is Some && ctx->0.future_to;
            if lex.golds@.contains_key(key) && lex.golds@[key] is Tagged {
                let m = lex.golds@[key]->Tagged_0@;
                if habit && m.contains_key("VBD"@) && m["VBD"@] is Some {
                    lex.special(word, tag, level, ctx) == sure(m["VBD"@]->0@)
                } else if m.contains_key("DEFAULT"@) && m["DEFAULT"@] is Some {
                    lex.special(word, tag, level, ctx) == sure(m["DEFAULT"@]->0@)
                } else {
                    lex.special(word, tag, level, ctx) is None
                }
            } else {
                lex.special(word, tag, level, ctx) is None
            }
        }),
{
    lemma_is_other(seq!['u', 's', 'e', 'd']);
    lemma_versus();
    lemma_word_used(lex, word, tag, level, ctx);
}

/// A preposition whose lower case is vs, with or without a dot, is read as versus, if it is not
/// taken for an abbreviation or a word with a form of its own.
pub proof fn law_word_versus(
    lex: Lexicon,
    word: Seq<char>,
    level: Option<Stress>,
    ctx: Option<&TokenContext>,
)
    requires
        unicode::lowercase(word) == seq!['v', 's']
            || unicode::lowercase(word) == seq!['v', 's', '.'],
        word.len() > 1,
        word[0] == 'v' || word[0] == 'V',
        !words::is_dotted(word),
    ensures
        lex.special(word, "IN"@, level, ctx) == lex.looked_up("versus"@, "NN"@, None, ctx),
{
    lemma_versus();
    assert("ADD"@ != "IN"@) by {
        reveal_strlit("IN");
        reveal_strlit("ADD");
        assert("ADD"@.len() == 3 && "IN"@.len() == 2);
    }
    lemma_symbols_are_short(word);
    lemma_formless(word, "IN"@);
    lemma_parent_adv("IN"@);
    reveal(Lexicon::special);
}

/// A word of two characters or more is no symbol.
proof fn lemma_symbols_are_short(word: Seq<char>)
    requires
        word.len() > 1,
    ensures
        !lexicon::named_symbols().contains_key(word),
        !lexicon::address_symbols().contains_key(word),
{
    law_symbols_have_names(word);
    assert(seq!['%'].len() == 1 && seq!['&'].len() == 1 && seq!['+'].len() == 1 && seq!['@'].len()
        == 1 && seq!['.'].len() == 1 && seq!['/'].len() == 1);
}

/// A named symbol is read as its name, and in an address the dot and the slash are too, with a
/// weak stress.
pub proof fn law_symbols_are_read_by_name(
    lex: Lexicon,
    tag: Seq<char>,
    level: Option<Stress>,
    ctx: Option<&TokenContext>,
)
    ensures
        lex.special(seq!['%'], tag, level, ctx) == lex.looked_up("percent"@, "NN"@, None, ctx),
        lex.special(seq!['&'], tag, level, ctx) == lex.looked_up("and"@, "NN"@, None, ctx),
        lex.special(seq!['+'], tag, level, ctx) == lex.looked_up("plus"@, "NN"@, None, ctx),
        lex.special(seq!['@'], tag, level, ctx) == lex.looked_up("at"@, "NN"@, None, ctx),
        tag == "ADD"@ ==> lex.special(seq!['.'], tag, level, ctx) == lex.looked_up(
            "dot"@,
            "NN"@,
            Some(Stress { quarters: (-2) as i64 }),
            ctx,
        ),
        tag == "ADD"@ ==> lex.special(seq!['/'], tag, level, ctx) == lex.looked_up(
            "slash"@,
            "NN"@,
            Some(Stress { quarters: (-2) as i64 }),
            ctx,
        ),
{
    law_symbols_have_names(seq!['%']);
    law_symbols_have_names(seq!['&']);
    law_symbols_have_names(seq!['+']);
    law_symbols_have_names(seq!['@']);
    law_symbols_have_names(seq!['.']);
    law_symbols_have_names(seq!['/']);
    assert(seq!['%'][0] == '%' && seq!['&'][0] == '&' && seq!['+'][0] == '+' && seq!['@'][0] == '@'
        && seq!['.'][0] == '.' && seq!['/'][0] == '/');
    reveal(Lexicon::special);
}

/// An abbreviation, letters with dots among them and fewer than three bytes between any two,
/// is spelt; with longer stretches it has no form of its own.
pub proof fn law_abbreviations_are_spelt(
    lex: Lexicon,
    word: Seq<char>,
    tag: Seq<char>,
    level: Option<Stress>,
    ctx: Option<&TokenContext>,
)
    requires
        word.len() > 1,
        word.contains('.'),
        forall|i: int|
            0 <= i < word.len() ==> #[trigger] word[i] == '.' || unicode::is_alphabetic(word[i]),
    ensures
        (forall|j: int|
            0 <= j < text::split(word, '.').len() ==> text::utf8_len(
                #[trigger] text::split(word, '.')[j],
            ) < 3) ==> lex.special(word, tag, level, ctx) == lexicon::spelt(lex.golds@, word),
        !(forall|j: int|
            0 <= j < text::split(word, '.').len() ==> text::utf8_len(
                #[trigger] text::split(word, '.')[j],
            ) < 3) ==> lex.special(word, tag, level, ctx) is None,
{
    lemma_symbols_are_short(word);
    lemma_without_alphabetic(word, '.');
    assert(words::is_dotted(word));
    reveal(Lexicon::special);
}

/// What is left of letters without a character are letters.
pub proof fn lemma_without_alphabetic(word: Seq<char>, d: char)
    requires
        forall|i: int|
            0 <= i < word.len() ==> #[trigger] word[i] == d || unicode::is_alphabetic(word[i]),
    ensures
        words::all_alphabetic(text::without(word, d)),
    decreases word.len(),
{
    if word.len() == 0 {
        reveal(Seq::filter);
    } else {
        let t = word.drop_last();
        assert(forall|i: int| 0 <= i < t.len() ==> t[i] == word[i]);
        lemma_without_alphabetic(t, d);
        assert(word =~= t.push(word.last()));
        text::lemma_without_push(t, d, word.last());
        assert(word[word.len() - 1] == word.last());
    }
}

/// Whether a word is one of those with a form of their own, with the tags with which it has
/// it.
pub open spec fn has_form(w: Seq<char>, tag: Seq<char>) -> bool {
    let adverb = "RB"@.is_prefix_of(tag) || "ADV"@.is_prefix_of(tag);
    ||| w.len() == 1 && w[0] == 'a'
    ||| w.len() == 1 && w[0] == 'A'
    ||| w.len() == 2 && w[0] == 'a' && w[1] == 'm'
    ||| w.len() == 2 && w[0] == 'A' && w[1] == 'm'
    ||| w.len() == 2 && w[0] == 'A' && w[1] == 'M'
    ||| w.len() == 2 && w[0] == 'a' && w[1] == 'n'
    ||| w.len() == 2 && w[0] == 'A' && w[1] == 'n'
    ||| w.len() == 2 && w[0] == 'A' && w[1] == 'N'
    ||| w.len() == 1 && w[0] == 'I' && tag == "PRP"@
    ||| w.len() == 2 && w[0] == 'b' && w[1] == 'y' && adverb
    ||| w.len() == 2 && w[0] == 'B' && w[1] == 'y' && adverb
    ||| w.len() == 2 && w[0] == 'B' && w[1] == 'Y' && adverb
    ||| w.len() == 2 && w[0] == 't' && w[1] == 'o'
    ||| w.len() == 2 && w[0] == 'T' && w[1] == 'o'
    ||| w.len() == 2 && w[0] == 'T' && w[1] == 'O' && (tag == "TO"@ || tag == "IN"@)
    ||| w.len() == 2 && w[0] == 'i' && w[1] == 'n'
    ||| w.len() == 2 && w[0] == 'I' && w[1] == 'n'
    ||| w.len() == 2 && w[0] == 'I' && w[1] == 'N' && tag != "NNP"@
    ||| w.len() == 3 && w[0] == 't' && w[1] == 'h' && w[2] == 'e'
    ||| w.len() == 3 && w[0] == 'T' && w[1] == 'h' && w[2] == 'e'
    ||| w.len() == 3 && w[0] == 'T' && w[1] == 'H' && w[2] == 'E' && tag == "DT"@
    ||| w.len() == 4 && w[0] == 'u' && w[1] == 's' && w[2] == 'e' && w[3] == 'd'
    ||| w.len() == 4 && w[0] == 'U' && w[1] == 's' && w[2] == 'e' && w[3] == 'd'
    ||| w.len() == 4 && w[0] == 'U' && w[1] == 'S' && w[2] == 'E' && w[3] == 'D'
}

proof fn lemma_versus()
    ensures
        "vs"@ == seq!['v', 's'],
        "vs."@ == seq!['v', 's', '.'],
{
    reveal_strlit("vs");
    reveal_strlit("vs.");
}

/// Any other word has no form of its own: one that is no symbol with a name, no abbreviation,
/// none of the words above, and no preposition that stands for versus.
pub proof fn law_other_words_have_no_form(
    lex: Lexicon,
    word: Seq<char>,
    tag: Seq<char>,
    level: Option<Stress>,
    ctx: Option<&TokenContext>,
)
    requires
        word != seq!['%'],
        word != seq!['&'],
        word != seq!['+'],
        word != seq!['@'],
        tag == "ADD"@ ==> word != seq!['.'] && word != seq!['/'],
        word.contains('.') ==> exists|i: int|
            0 <= i < word.len() && #[trigger] word[i] != '.' && !unicode::is_alphabetic(word[i]),
        !has_form(word, tag),
        tag == "IN"@ ==> unicode::lowercase(word) != seq!['v', 's'] && unicode::lowercase(word)
            != seq!['v', 's', '.'],
    ensures
        lex.special(word, tag, level, ctx) is None,
{
    law_symbols_have_names(word);
    lemma_formless(word, tag);
    lemma_parent_adv(tag);
    lemma_versus();
    assert(!words::is_dotted(word)) by {
        if words::is_dotted(word) {
            laws::lookup::lemma_letters_left(word, '.');
        }
    }
    reveal(Lexicon::special);
}

proof fn lemma_formless(word: Seq<char>, tag: Seq<char>)
    requires
        !has_form(word, tag),
    ensures
        word != "a"@,
        word != "A"@,
        word != "am"@,
        word != "Am"@,
        word != "AM"@,
        word != "an"@,
        word != "An"@,
        word != "AN"@,
        word != "I"@ || !(tag == "PRP"@),
        word != "by"@ || !("RB"@.is_prefix_of(tag) || "ADV"@.is_prefix_of(tag)),
        word != "By"@ || !("RB"@.is_prefix_of(tag) || "ADV"@.is_prefix_of(tag)),
        word != "BY"@ || !("RB"@.is_prefix_of(tag) || "ADV"@.is_prefix_of(tag)),
        word != "to"@,
        word != "To"@,
        word != "TO"@ || !(tag == "TO"@ || tag == "IN"@),
        word != "in"@,
        word != "In"@,
        word != "IN"@ || !(tag != "NNP"@),
        word != "the"@,
        word != "The"@,
        word != "THE"@ || !(tag == "DT"@),
        word != "used"@,
        word != "Used"@,
        word != "USED"@,
{
    lemma_spelling(word);
}

/// In a text, the before a word that starts with a, e, i, o or u, or with a letter whose lower
/// case is one of these, is ði; before any other letter it is ðə.
pub proof fn law_the_listens_to_the_next_word(
    g: G2P,
    input: Seq<char>,
    out: Seq<char>,
    tokens: Seq<Token>,
    k: int,
)
    requires
        g.outcome(input, Ok((out, tokens))),
        0 <= k,
        k + 1 < tokens.len(),
        outcome::marked_tokens(input)[k].phonemes is None,
        tokens[k].text == seq!['t', 'h', 'e'] || tokens[k].text == seq!['T', 'h', 'e'],
        tokens[k + 1].text.len() > 0,
    ensures
        ({
            let first = unicode::char_lowercase(tokens[k + 1].text[0])[0];
            &&& first == 'a' || first == 'e' || first == 'i' || first == 'o' || first == 'u'
                ==> tokens[k].phonemes == Some("ði"@)
            &&& first != 'a' && first != 'e' && first != 'i' && first != 'o' && first != 'u'
                && unicode::is_alphabetic(tokens[k + 1].text[0]) ==> tokens[k].phonemes == Some(
                "ðə"@,
            )
        }),
{
    let ctx = sounds::context_of(tokens, k);
    laws::context::law_context_is_of_the_next_token(tokens, k);
    laws::context::law_first_letter_tells(tokens[k + 1]);
    let level = g.stress_for(tokens[k]);
    law_word_the(g.lexicon, tokens[k].text, tokens[k].tag, level, Some(&ctx));
    laws::lexicon::law_special_form_first(
        g.lexicon,
        tokens[k].text,
        tokens[k].tag,
        level,
        Some(&ctx),
    );
    laws::reading::law_lexicon_comes_first(g, input, out, tokens, k);
}

} // verus!
