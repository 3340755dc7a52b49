//! What single characters stand for.

use crate::sounds;
use crate::text;
use crate::tokenize;
use crate::unicode;
use vstd::prelude::*;

verus! {

/// White space is tab, line feed, vertical tab, form feed, carriage return and the space, the
/// next line and the no-break space, and the spaces and separators beyond Latin.
pub proof fn law_white_space(c: char)
    ensures
        text::is_space(c) <==> {
            ||| c == '\t' || c == '\n' || c == '\u{b}' || c == '\u{c}' || c == '\r' || c == ' '
            ||| c == '\u{85}' || c == '\u{a0}' || c == '\u{1680}' || c == '\u{2000}' || c
                == '\u{2001}' || c == '\u{2002}' || c == '\u{2003}' || c == '\u{2004}' || c
                == '\u{2005}' || c == '\u{2006}' || c == '\u{2007}' || c == '\u{2008}' || c
                == '\u{2009}' || c == '\u{200a}' || c == '\u{2028}' || c == '\u{2029}' || c
                == '\u{202f}' || c == '\u{205f}' || c == '\u{3000}'
        },
        tokenize::is_counted(c) <==> !text::is_space(c) && c != '\'',
{
}

/// The marks ; : , . ! and ? are read as themselves.
pub proof fn law_kept_marks(c: char, unk: Seq<char>)
    requires
        c == ';' || c == ':' || c == ',' || c == '.' || c == '!' || c == '?',
    ensures
        sounds::symbol_sound(seq![c], unk) == seq![c],
{
}

/// All other ASCII punctuation, the two dashes and the ellipsis are a pause.
pub proof fn law_other_marks_are_pauses(c: char, unk: Seq<char>)
    requires
        c == '"' || c == '#' || c == '$' || c == '%' || c == '&' || c == '\'' || c == '(' || c
            == ')' || c == '*' || c == '+' || c == '-' || c == '/' || c == '<' || c == '=' || c
            == '>' || c == '@' || c == '[' || c == '\\' || c == ']' || c == '^' || c == '_' || c
            == '`' || c == '{' || c == '|' || c == '}' || c == '~' || c == '—' || c == '–' || c
            == '…',
    ensures
        sounds::symbol_sound(seq![c], unk) == seq![' '],
{
    reveal_strlit(" ");
    assert(" "@ =~= seq![' ']);
}

/// Any other symbol, and whatever is not a single character, is read as the mark of the
/// unknown.
pub proof fn law_unknown_is_marked(word: Seq<char>, unk: Seq<char>)
    requires
        word.len() == 1 ==> !('!' <= word[0] <= '/') && !(':' <= word[0] <= '@') && !('[' <= word[0]
            <= '`') && !('{' <= word[0] <= '~') && word[0] != '—' && word[0] != '–' && word[0]
            != '…',
    ensures
        sounds::symbol_sound(word, unk) == unk,
{
}

/// The letters with an accent of acute, grave, circumflex, diaeresis, tilde or ring, and the
/// c with a cedilla, have their letter as plain form; a dash has the space; all others have
/// themselves.
pub proof fn law_plain_forms(c: char)
    ensures
        c == 'á' || c == 'à' || c == 'â' || c == 'ä' || c == 'ã' || c == 'å'
            ==> sounds::base_char(c) == 'a',
        c == 'é' || c == 'è' || c == 'ê' || c == 'ë' ==> sounds::base_char(c) == 'e',
        c == 'í' || c == 'ì' || c == 'î' || c == 'ï' ==> sounds::base_char(c) == 'i',
        c == 'ó' || c == 'ò' || c == 'ô' || c == 'ö' || c == 'õ' ==> sounds::base_char(c) == 'o',
        c == 'ú' || c == 'ù' || c == 'û' || c == 'ü' ==> sounds::base_char(c) == 'u',
        c == 'ñ' ==> sounds::base_char(c) == 'n',
        c == 'ç' ==> sounds::base_char(c) == 'c',
        c == '—' || c == '–' ==> sounds::base_char(c) == ' ',
        c != 'á' && c != 'à' && c != 'â' && c != 'ä' && c != 'ã' && c != 'å' && c != 'é' && c != 'è'
            && c != 'ê' && c != 'ë' && c != 'í' && c != 'ì' && c != 'î' && c != 'ï' && c != 'ó'
            && c != 'ò' && c != 'ô' && c != 'ö' && c != 'õ' && c != 'ú' && c != 'ù' && c != 'û'
            && c != 'ü' && c != 'ñ' && c != 'ç' && c != '—' && c != '–' ==> sounds::base_char(c)
            == c,
{
}

/// A word's plain form is that of each of its characters.
pub proof fn law_plain_form_of_a_word(word: Seq<char>, i: int)
    requires
        0 <= i < word.len(),
    ensures
        sounds::normalized(word).len() == word.len(),
        sounds::normalized(word)[i] == sounds::base_char(word[i]),
{
}

/// The small letter of an ASCII capital stands thirty-two places behind it, and all other
/// ASCII characters are their own small letter and, but for small letters, their own capital.
pub proof fn law_ascii_case(c: char)
    ensures
        'A' <= c <= 'Z' ==> unicode::ascii_lower(c) as int == c as int + 32
            && unicode::ascii_upper(c) == c,
        'a' <= c <= 'z' ==> unicode::ascii_upper(c) as int == c as int - 32
            && unicode::ascii_lower(c) == c,
        !('A' <= c <= 'Z') && !('a' <= c <= 'z') ==> unicode::ascii_lower(c) == c
            && unicode::ascii_upper(c) == c && !unicode::is_ascii_letter(c),
        'A' <= c <= 'Z' || 'a' <= c <= 'z' ==> unicode::is_ascii_letter(c),
{
}

/// The bytes of a text are those of its UTF-8 form.
pub proof fn law_bytes_are_utf8(s: Seq<char>)
    ensures
        text::utf8_len(s) == vstd::utf8::encode_utf8(s).len(),
{
}

/// Words are found by the pattern for runs without white space, and their pieces by the
/// pattern that tells quotes, numbers, hyphens and underscores, letters with apostrophes among
/// them, and single symbols apart.
pub proof fn law_patterns(word: Seq<char>)
    ensures
        tokenize::WORDS@ == "\\S+"@,
        tokenize::piece_spans(word) == tokenize::matches_of(
            "(?x)
            ^['‘’]+ |
            (?:^-)?(?:\\d?[,.]?\\d)+ |
            [\\-_]+ |
            ['‘’]{2,} |
            \\p{L}+(?:[''']\\p{L}+)* |
            [^\\s\\-_0-9\\p{L}''] |
            ['‘’]+$
        "@,
            word,
        ),
{
}

} // verus!
