//! What a word learns from the token behind it.

use crate::lexicon::TokenContext;
use crate::sounds;
use crate::stress;
use crate::token::Token;
use crate::unicode;
use vstd::prelude::*;

verus! {

/// A token whose text starts with one of the letters a, e, i, o and u, in lower case, or with
/// one whose lower case is such a letter, tells the word before it of a vowel; one that starts
/// with any other letter tells it of a consonant.
pub proof fn law_first_letter_tells(next: Token)
    requires
        next.text.len() > 0,
    ensures
        ({
            let first = unicode::char_lowercase(next.text[0])[0];
            let told = sounds::context_before(next).future_vowel;
            &&& first == 'a' || first == 'e' || first == 'i' || first == 'o' || first == 'u'
                ==> told == Some(true)
            &&& first != 'a' && first != 'e' && first != 'i' && first != 'o' && first != 'u'
                && unicode::is_alphabetic(next.text[0]) ==> told == Some(false)
        }),
{
}

/// The vowels among the sounds.
pub open spec fn sounds_open(c: char) -> bool {
    ||| c == 'A' || c == 'I' || c == 'O' || c == 'Q' || c == 'W' || c == 'Y'
    ||| c == 'a' || c == 'i' || c == 'u'
    ||| c == 'æ' || c == 'ɑ' || c == 'ɒ' || c == 'ɔ' || c == 'ə' || c == 'ɛ' || c == 'ɜ'
    ||| c == 'ɪ' || c == 'ʊ' || c == 'ʌ' || c == 'ᵻ'
}

/// The consonants among the sounds.
pub open spec fn sounds_closed(c: char) -> bool {
    ||| c == 'b' || c == 'd' || c == 'f' || c == 'h' || c == 'j' || c == 'k' || c == 'l'
    ||| c == 'm' || c == 'n' || c == 'p' || c == 's' || c == 't' || c == 'v' || c == 'w'
    ||| c == 'z' || c == 'ð' || c == 'ŋ' || c == 'ɡ' || c == 'ɹ' || c == 'ɾ' || c == 'ʃ'
    ||| c == 'ʒ' || c == 'ʤ' || c == 'ʧ' || c == 'θ'
}

/// The sounds are vowels, consonants, or neither, as the two tables say.
pub proof fn law_sounds_are_vowels_or_consonants(c: char)
    ensures
        stress::is_vowel(c) <==> sounds_open(c),
        stress::is_consonant(c) <==> sounds_closed(c),
        !(stress::is_vowel(c) && stress::is_consonant(c)),
{
}

/// The first vowel or consonant of a pronunciation tells which it starts with; what is
/// neither is passed over.
pub proof fn law_first_sound_decides(ps: Seq<char>, i: int)
    requires
        0 <= i <= ps.len(),
        forall|j: int|
            0 <= j < i ==> !sounds_open(#[trigger] ps[j]) && !sounds_closed(ps[j]),
    ensures
        i < ps.len() && sounds_open(ps[i]) ==> sounds::first_sound(ps) == Some(true),
        i < ps.len() && sounds_closed(ps[i]) ==> sounds::first_sound(ps) == Some(false),
        i == ps.len() ==> sounds::first_sound(ps) is None,
    decreases i,
{
    if i > 0 {
        let t = ps.drop_first();
        assert forall|j: int| 0 <= j < i - 1 implies !sounds_open(#[trigger] t[j])
            && !sounds_closed(t[j]) by {
            assert(t[j] == ps[j + 1]);
        }
        assert(!sounds_open(ps[0]) && !sounds_closed(ps[0]));
        law_first_sound_decides(t, i - 1);
    }
}

/// A token that starts with no letter tells the word before it of its first sound, and of
/// nothing if it has none.
pub proof fn law_first_sound_tells(next: Token, i: int)
    requires
        next.text.len() > 0 ==> {
            let first = unicode::char_lowercase(next.text[0])[0];
            !unicode::is_alphabetic(next.text[0]) && first != 'a' && first != 'e' && first != 'i'
                && first != 'o' && first != 'u'
        },
        next.phonemes is Some,
        0 <= i <= next.phonemes->0.len(),
        forall|j: int|
            0 <= j < i ==> !sounds_open(#[trigger] next.phonemes->0[j]) && !sounds_closed(
                next.phonemes->0[j],
            ),
    ensures
        ({
            let ps = next.phonemes->0;
            let told = sounds::context_before(next).future_vowel;
            &&& i < ps.len() && sounds_open(ps[i]) ==> told == Some(true)
            &&& i < ps.len() && sounds_closed(ps[i]) ==> told == Some(false)
            &&& i == ps.len() ==> told is None
        }),
{
    law_first_sound_decides(next.phonemes->0, i);
}

/// A token tells the word before it that "to" follows just if it is that word, in any casing.
pub proof fn law_to_is_told(next: Token)
    ensures
        sounds::context_before(next).future_to <==> unicode::lowercase(next.text) == "to"@,
{
}

/// The context of a token is what the token right behind it tells; that of the last token
/// says nothing.
pub proof fn law_context_is_of_the_next_token(tokens: Seq<Token>, k: int)
    requires
        0 <= k < tokens.len(),
    ensures
        k + 1 < tokens.len() ==> sounds::context_of(tokens, k) == sounds::context_before(
            tokens[k + 1],
        ),
        k + 1 == tokens.len() ==> sounds::context_of(tokens, k) == (TokenContext {
            future_vowel: None,
            future_to: false,
        }),
{
}

} // verus!
