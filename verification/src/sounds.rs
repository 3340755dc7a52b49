//! What a word's neighbours and its own symbols say about its pronunciation.

use crate::lexicon::TokenContext;
use crate::stress;
use crate::text;
use crate::token;
use crate::token::MToken;
use crate::unicode;
use vstd::prelude::*;

verus! {

/// Whether a letter stands for a vowel.
pub open spec fn is_vowel_letter(c: char) -> bool {
    c == 'a' || c == 'e' || c == 'i' || c == 'o' || c == 'u'
}

/// Whether the first sound of a phoneme string is a vowel, where it holds a sound at all.
pub open spec fn first_sound(ps: Seq<char>) -> Option<bool>
    decreases ps.len(),
{
    if ps.len() == 0 {
        None
    } else if stress::is_vowel(ps[0]) {
        Some(true)
    } else if stress::is_consonant(ps[0]) {
        Some(false)
    } else {
        first_sound(ps.drop_first())
    }
}

/// Whether a word starts with a vowel: by its first letter, or where it starts with no letter
/// by its first sound.
pub open spec fn starts_with_vowel(word: Seq<char>, ps: Seq<char>) -> Option<bool> {
    if word.len() > 0 && is_vowel_letter(unicode::char_lowercase(word[0])[0]) {
        Some(true)
    } else if word.len() > 0 && unicode::is_alphabetic(word[0]) {
        Some(false)
    } else {
        first_sound(ps)
    }
}

/// What the token behind says of a word's context.
pub open spec fn context_before(next: token::Token) -> TokenContext {
    TokenContext {
        future_vowel: starts_with_vowel(
            next.text,
            match next.phonemes {
                Some(ps) => ps,
                None => Seq::empty(),
            },
        ),
        future_to: unicode::lowercase(next.text) == "to"@,
    }
}

/// The context of the `k`th token.
pub open spec fn context_of(tokens: Seq<token::Token>, k: int) -> TokenContext {
    if k + 1 < tokens.len() {
        context_before(tokens[k + 1])
    } else {
        TokenContext { future_vowel: None, future_to: false }
    }
}

/// Whether a character is an ASCII punctuation mark.
pub open spec fn is_ascii_punctuation(c: char) -> bool {
    '!' <= c <= '/' || ':' <= c <= '@' || '[' <= c <= '`' || '{' <= c <= '~'
}

/// The punctuation marks that are handed on: they guide the intonation.
pub open spec fn is_kept(c: char) -> bool {
    c == ';' || c == ':' || c == ',' || c == '.' || c == '!' || c == '?'
}

/// What a symbol that nothing is known of is read as: itself if it is kept, a pause if it is
/// other punctuation, else the mark of the unknown.
pub open spec fn symbol_sound(word: Seq<char>, unk: Seq<char>) -> Seq<char> {
    if word.len() == 1 && is_kept(word[0]) {
        word
    } else if word.len() == 1 && (is_ascii_punctuation(word[0]) || word[0] == '—' || word[0] == '–'
        || word[0] == '…') {
        " "@
    } else {
        unk
    }
}

/// The plain letter of an accented one, and a space for a dash; any other character is its
/// own.
pub open spec fn base_char(c: char) -> char {
    if c == 'é' || c == 'è' || c == 'ê' || c == 'ë' {
        'e'
    } else if c == 'á' || c == 'à' || c == 'â' || c == 'ä' || c == 'ã' || c == 'å' {
        'a'
    } else if c == 'í' || c == 'ì' || c == 'î' || c == 'ï' {
        'i'
    } else if c == 'ó' || c == 'ò' || c == 'ô' || c == 'ö' || c == 'õ' {
        'o'
    } else if c == 'ú' || c == 'ù' || c == 'û' || c == 'ü' {
        'u'
    } else if c == 'ñ' {
        'n'
    } else if c == 'ç' {
        'c'
    } else if c == '—' || c == '–' {
        ' '
    } else {
        c
    }
}

/// A word with plain letters in place of accented ones.
pub open spec fn normalized(word: Seq<char>) -> Seq<char> {
    word.map_values(|c: char| base_char(c))
}

/// Finds the plain letter of an accented one.
fn normalize_char(c: char) -> (r: char)
    ensures
        r == base_char(c),
{
    match c {
        'é' | 'è' | 'ê' | 'ë' => 'e',
        'á' | 'à' | 'â' | 'ä' | 'ã' | 'å' => 'a',
        'í' | 'ì' | 'î' | 'ï' => 'i',
        'ó' | 'ò' | 'ô' | 'ö' | 'õ' => 'o',
        'ú' | 'ù' | 'û' | 'ü' => 'u',
        'ñ' => 'n',
        'ç' => 'c',
        '—' | '–' => ' ',
        _ => c,
    }
}

/// Puts plain letters in place of accented ones.
pub fn normalize(word: &str) -> (r: String)
    ensures
        r@ == normalized(word@),
{
    let v = text::chars_of(word);
    let mut r = String::new();
    let mut i: usize = 0;
    while i < v.len()
        invariant
            i <= v@.len(),
            v@ == word@,
            r@ =~= normalized(word@).take(i as int),
        decreases v@.len() - i,
    {
        r.push(normalize_char(v[i]));
        i = i + 1;
    }
    assert(normalized(word@).take(v@.len() as int) =~= normalized(word@));
    r
}

/// Reads a symbol that nothing is known of.
pub fn read_symbol(word: &str, unk: &str) -> (r: String)
    ensures
        r@ == symbol_sound(word@, unk@),
{
    let v = text::chars_of(word);
    if v.len() == 1 {
        let c = v[0];
        if c == ';' || c == ':' || c == ',' || c == '.' || c == '!' || c == '?' {
            return word.to_owned();
        }
        if ('!' <= c && c <= '/') || (':' <= c && c <= '@') || ('[' <= c && c <= '`') || ('{' <= c
            && c <= '~') || c == '—' || c == '–' || c == '…' {
            return " ".to_owned();
        }
    }
    unk.to_owned()
}

/// Finds whether the first sound of a phoneme string is a vowel.
pub fn find_first_sound(ps: &str) -> (r: Option<bool>)
    ensures
        r == first_sound(ps@),
{
    let v = text::chars_of(ps);
    let mut i: usize = 0;
    assert(ps@.skip(0) =~= ps@);
    while i < v.len()
        invariant
            i <= v@.len(),
            v@ == ps@,
            first_sound(ps@) == first_sound(ps@.skip(i as int)),
        decreases v@.len() - i,
    {
        if stress::vowel(v[i]) {
            return Some(true);
        }
        if stress::consonant(v[i]) {
            return Some(false);
        }
        assert(ps@.skip(i as int).drop_first() =~= ps@.skip(i + 1));
        i = i + 1;
    }
    None
}

/// Reads a word's context off the token behind it.
///
/// Spelt out for ASCII letters: a, e, i, o and u, small or capital, tell of a vowel, and all
/// other letters of a consonant.
pub fn look_ahead(next: &MToken) -> (r: TokenContext)
    ensures
        r == context_before(next@),
        next.text@.len() > 0 && (next.text@[0] == 'a' || next.text@[0] == 'e' || next.text@[0]
            == 'i' || next.text@[0] == 'o' || next.text@[0] == 'u' || next.text@[0] == 'A'
            || next.text@[0] == 'E' || next.text@[0] == 'I' || next.text@[0] == 'O'
            || next.text@[0] == 'U') ==> r.future_vowel == Some(true),
        next.text@.len() > 0 && ('a' <= next.text@[0] <= 'z' || 'A' <= next.text@[0] <= 'Z') && !(
        next.text@[0] == 'a' || next.text@[0] == 'e' || next.text@[0] == 'i' || next.text@[0] == 'o'
            || next.text@[0] == 'u' || next.text@[0] == 'A' || next.text@[0] == 'E'
            || next.text@[0] == 'I' || next.text@[0] == 'O' || next.text@[0] == 'U')
            ==> r.future_vowel == Some(false),
{
    let v = text::chars_of(next.text.as_str());
    let lower = unicode::to_lowercase(next.text.as_str());
    let future_to = text::same(lower.as_str(), "to");
    if v.len() > 0 {
        let first = unicode::char_to_lowercase(v[0]);
        let c = first.as_str().get_char(0);
        if c == 'a' || c == 'e' || c == 'i' || c == 'o' || c == 'u' {
            return TokenContext { future_vowel: Some(true), future_to };
        }
        if unicode::char_is_alphabetic(v[0]) {
            return TokenContext { future_vowel: Some(false), future_to };
        }
    }
    let future_vowel = match &next.phonemes {
        Some(ps) => find_first_sound(ps.as_str()),
        None => None,
    };
    TokenContext { future_vowel, future_to }
}

} // verus!
