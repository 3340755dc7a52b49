//! Inflected words: the stems of plurals, past tenses and continuous tenses, and the sounds
//! that the endings add.

use crate::language::Language;
use crate::lexicon;
use crate::lexicon::{Lexicon, TokenContext};
use crate::stress::Stress;
use crate::text;
use crate::unicode;
use vstd::prelude::*;

verus! {

/// The sounds between which an American t is flapped.
pub open spec fn is_tau(c: char) -> bool {
    ||| c == 'A' || c == 'I' || c == 'O' || c == 'W' || c == 'Y' || c == 'i' || c == 'u'
    ||| c == 'æ' || c == 'ɑ' || c == 'ə' || c == 'ɛ' || c == 'ɪ' || c == 'ɹ' || c == 'ʊ'
    ||| c == 'ʌ'
}

/// The consonants that are doubled before "ing".
pub open spec fn is_doubling(c: char) -> bool {
    ||| c == 'b' || c == 'c' || c == 'd' || c == 'g' || c == 'k' || c == 'l' || c == 'm'
    ||| c == 'n' || c == 'p' || c == 'r' || c == 's' || c == 't' || c == 'v' || c == 'x'
    ||| c == 'z'
}

/// Whether two letters before "ing" are what a single one becomes: a doubled consonant, or
/// the ck of a final c.
pub open spec fn is_doubled(a: char, b: char) -> bool {
    (a == b && is_doubling(b)) || (a == 'c' && b == 'k')
}

fn tau(c: char) -> (r: bool)
    ensures
        r == is_tau(c),
{
    c == 'A' || c == 'I' || c == 'O' || c == 'W' || c == 'Y' || c == 'i' || c == 'u' || c == 'æ'
        || c == 'ɑ' || c == 'ə' || c == 'ɛ' || c == 'ɪ' || c == 'ɹ' || c == 'ʊ' || c == 'ʌ'
}

fn doubled(a: char, b: char) -> (r: bool)
    ensures
        r == is_doubled(a, b),
{
    (a == b && (b == 'b' || b == 'c' || b == 'd' || b == 'g' || b == 'k' || b == 'l' || b == 'm'
        || b == 'n' || b == 'p' || b == 'r' || b == 's' || b == 't' || b == 'v' || b == 'x' || b
        == 'z')) || (a == 'c' && b == 'k')
}

/// The vowel of a full syllable ending.
pub open spec fn ending_vowel(lang: Language) -> char {
    match lang {
        Language::EnglishGB => 'ɪ',
        Language::EnglishUS => 'ᵻ',
    }
}

/// The pronunciation of a stem with an s behind it.
pub open spec fn with_s(lang: Language, stem: Seq<char>) -> Seq<char> {
    if stem.len() == 0 {
        stem
    } else {
        let last = stem.last();
        if last == 'p' || last == 't' || last == 'k' || last == 'f' || last == 'θ' {
            stem.push('s')
        } else if last == 's' || last == 'z' || last == 'ʃ' || last == 'ʒ' || last == 'ʧ' || last
            == 'ʤ' {
            stem.push(ending_vowel(lang)).push('z')
        } else {
            stem.push('z')
        }
    }
}

/// Whether a stem ends in a t that American speech flaps.
pub open spec fn flaps(stem: Seq<char>) -> bool {
    stem.len() >= 2 && stem.last() == 't' && is_tau(stem[stem.len() - 2])
}

/// The pronunciation of a stem with an ed behind it.
pub open spec fn with_ed(lang: Language, stem: Seq<char>) -> Seq<char> {
    if stem.len() == 0 {
        stem
    } else {
        let last = stem.last();
        if last == 'p' || last == 'k' || last == 'f' || last == 'θ' || last == 'ʃ' || last == 's'
            || last == 'ʧ' {
            stem.push('t')
        } else if last == 'd' {
            stem.push(ending_vowel(lang)).push('d')
        } else if last != 't' {
            stem.push('d')
        } else if lang == Language::EnglishGB || stem.len() < 2 {
            stem.push('ɪ').push('d')
        } else if flaps(stem) {
            stem.drop_last().push('ɾ').push('ᵻ').push('d')
        } else {
            stem.push('ᵻ').push('d')
        }
    }
}

/// The pronunciation of a stem with an ing behind it. British speech has none for a stem
/// that ends in a schwa or a long vowel.
pub open spec fn with_ing(lang: Language, stem: Seq<char>) -> Option<Seq<char>> {
    if stem.len() == 0 {
        None
    } else if lang == Language::EnglishGB && (stem.last() == 'ə' || stem.last() == 'ː') {
        None
    } else if lang == Language::EnglishUS && flaps(stem) {
        Some(stem.drop_last().push('ɾ').push('ɪ').push('ŋ'))
    } else {
        Some(stem.push('ɪ').push('ŋ'))
    }
}

impl Lexicon {
    /// The stem of a lowercase word that ends in s.
    pub open spec fn stem_of_s(&self, lower: Seq<char>) -> Option<Seq<char>> {
        let n = lower.len();
        let bytes = text::utf8_len(lower);
        if bytes < 3 || !"s"@.is_suffix_of(lower) {
            None
        } else if !"ss"@.is_suffix_of(lower) && self.knows(lower.take(n - 1)) {
            Some(lower.take(n - 1))
        } else if ("'s"@.is_suffix_of(lower) || (bytes > 4 && "es"@.is_suffix_of(lower)
            && !"ies"@.is_suffix_of(lower))) && self.knows(lower.take(n - 2)) {
            Some(lower.take(n - 2))
        } else if bytes > 4 && "ies"@.is_suffix_of(lower) && self.knows(
            lower.take(n - 3) + "y"@,
        ) {
            Some(lower.take(n - 3) + "y"@)
        } else {
            None
        }
    }

    /// The stem of a lowercase word that ends in d.
    pub open spec fn stem_of_ed(&self, lower: Seq<char>) -> Option<Seq<char>> {
        let n = lower.len();
        let bytes = text::utf8_len(lower);
        if bytes < 4 || !"d"@.is_suffix_of(lower) {
            None
        } else if !"dd"@.is_suffix_of(lower) && self.knows(lower.take(n - 1)) {
            Some(lower.take(n - 1))
        } else if bytes > 4 && "ed"@.is_suffix_of(lower) && !"eed"@.is_suffix_of(lower)
            && self.knows(lower.take(n - 2)) {
            Some(lower.take(n - 2))
        } else {
            None
        }
    }

    /// The stem of a lowercase word that ends in ing: what stands before the ending, with or
    /// without an e, or without the last letter of a doubled consonant or of ck.
    pub open spec fn stem_of_ing(&self, lower: Seq<char>) -> Option<Seq<char>> {
        let n = lower.len();
        let bytes = text::utf8_len(lower);
        if bytes < 5 || !"ing"@.is_suffix_of(lower) {
            None
        } else if bytes > 5 && self.knows(lower.take(n - 3)) {
            Some(lower.take(n - 3))
        } else if self.knows(lower.take(n - 3) + "e"@) {
            Some(lower.take(n - 3) + "e"@)
        } else if bytes > 5 && n >= 5 && is_doubled(lower[n - 5], lower[n - 4]) && self.knows(
            lower.take(n - 4),
        ) {
            Some(lower.take(n - 4))
        } else {
            None
        }
    }

    /// The pronunciation of a word in s, by way of its stem.
    pub open spec fn stemmed_s(
        &self,
        word: Seq<char>,
        tag: Seq<char>,
        stress: Option<Stress>,
        ctx: Option<&TokenContext>,
    ) -> Option<(Seq<char>, i32)> {
        match self.stem_of_s(unicode::lowercase(word)) {
            None => None,
            Some(stem) => match self.looked_up(stem, tag, stress, ctx) {
                None => None,
                Some((ps, rating)) => Some((with_s(self.lang, ps), rating)),
            },
        }
    }

    /// The pronunciation of a word in ed, by way of its stem.
    pub open spec fn stemmed_ed(
        &self,
        word: Seq<char>,
        tag: Seq<char>,
        stress: Option<Stress>,
        ctx: Option<&TokenContext>,
    ) -> Option<(Seq<char>, i32)> {
        match self.stem_of_ed(unicode::lowercase(word)) {
            None => None,
            Some(stem) => match self.looked_up(stem, tag, stress, ctx) {
                None => None,
                Some((ps, rating)) => Some((with_ed(self.lang, ps), rating)),
            },
        }
    }

    /// The pronunciation of a word in ing, by way of its stem.
    pub open spec fn stemmed_ing(
        &self,
        word: Seq<char>,
        tag: Seq<char>,
        stress: Option<Stress>,
        ctx: Option<&TokenContext>,
    ) -> Option<(Seq<char>, i32)> {
        match self.stem_of_ing(unicode::lowercase(word)) {
            None => None,
            Some(stem) => match self.looked_up(stem, tag, stress, ctx) {
                None => None,
                Some((ps, rating)) => match with_ing(self.lang, ps) {
                    None => None,
                    Some(full) => Some((full, rating)),
                },
            },
        }
    }

    /// Pronounces a word in s by way of its stem.
    pub fn stem_s(
        &self,
        word: &str,
        tag: &str,
        stress: Option<Stress>,
        ctx: Option<&TokenContext>,
    ) -> (r: Option<(String, i32)>)
        ensures
            lexicon::reading(r) == self.stemmed_s(word@, tag@, stress, ctx),
    {
        let owned = unicode::to_lowercase(word);
        let stem = match self.find_stem_s(owned.as_str(), tag) {
            Some(stem) => stem,
            None => {
                return None;
            },
        };
        match self.lookup(stem.as_str(), tag, stress, ctx) {
            Some((ps, rating)) => Some((self.append_s(ps.as_str()), rating)),
            None => None,
        }
    }

    /// Finds the stem of a lowercase word that ends in s.
    pub fn find_stem_s(&self, lower: &str, tag: &str) -> (r: Option<String>)
        ensures
            match r {
                Some(stem) => self.stem_of_s(lower@) == Some(stem@),
                None => self.stem_of_s(lower@) is None,
            },
    {
        proof {
            reveal_strlit("s");
            reveal_strlit("'s");
            reveal_strlit("es");
            reveal_strlit("ies");
        }
        let bytes: usize = text::byte_len(lower);
        if bytes < 3 || !text::ends_with(lower, "s") {
            return None;
        }
        if !text::ends_with(lower, "ss") {
            let stem = text::drop_chars(lower, 1);
            if self.is_known(stem.as_str(), tag) {
                return Some(stem);
            }
        }
        if text::ends_with(lower, "'s") || (bytes > 4 && text::ends_with(lower, "es")
            && !text::ends_with(lower, "ies")) {
            let stem = text::drop_chars(lower, 2);
            if self.is_known(stem.as_str(), tag) {
                return Some(stem);
            }
        }
        if bytes > 4 && text::ends_with(lower, "ies") {
            let cut = text::drop_chars(lower, 3);
            let stem = text::concat(cut.as_str(), "y");
            if self.is_known(stem.as_str(), tag) {
                return Some(stem);
            }
        }
        None
    }

    /// Puts an s behind a pronunciation.
    pub fn append_s(&self, stem: &str) -> (r: String)
        ensures
            r@ == with_s(self.lang, stem@),
    {
        let v = text::chars_of(stem);
        let mut r = stem.to_owned();
        if v.len() == 0 {
            return r;
        }
        let last = v[v.len() - 1];
        if last == 'p' || last == 't' || last == 'k' || last == 'f' || last == 'θ' {
            r.push('s');
        } else if last == 's' || last == 'z' || last == 'ʃ' || last == 'ʒ' || last == 'ʧ' || last
            == 'ʤ' {
            r.push(self.full_vowel());
            r.push('z');
        } else {
            r.push('z');
        }
        r
    }

    /// The vowel of a full syllable ending.
    fn full_vowel(&self) -> (c: char)
        ensures
            c == ending_vowel(self.lang),
    {
        match self.lang {
            Language::EnglishGB => 'ɪ',
            Language::EnglishUS => 'ᵻ',
        }
    }

    /// Pronounces a word in ed by way of its stem.
    pub fn stem_ed(
        &self,
        word: &str,
        tag: &str,
        stress: Option<Stress>,
        ctx: Option<&TokenContext>,
    ) -> (r: Option<(String, i32)>)
        ensures
            lexicon::reading(r) == self.stemmed_ed(word@, tag@, stress, ctx),
    {
        let owned = unicode::to_lowercase(word);
        let stem = match self.find_stem_ed(owned.as_str(), tag) {
            Some(stem) => stem,
            None => {
                return None;
            },
        };
        match self.lookup(stem.as_str(), tag, stress, ctx) {
            Some((ps, rating)) => Some((self.append_ed(ps.as_str()), rating)),
            None => None,
        }
    }

    /// Finds the stem of a lowercase word that ends in d.
    pub fn find_stem_ed(&self, lower: &str, tag: &str) -> (r: Option<String>)
        ensures
            match r {
                Some(stem) => self.stem_of_ed(lower@) == Some(stem@),
                None => self.stem_of_ed(lower@) is None,
            },
    {
        proof {
            reveal_strlit("d");
            reveal_strlit("ed");
        }
        let bytes: usize = text::byte_len(lower);
        if bytes < 4 || !text::ends_with(lower, "d") {
            return None;
        }
        if !text::ends_with(lower, "dd") {
            let stem = text::drop_chars(lower, 1);
            if self.is_known(stem.as_str(), tag) {
                return Some(stem);
            }
        }
        if bytes > 4 && text::ends_with(lower, "ed") && !text::ends_with(lower, "eed") {
            let stem = text::drop_chars(lower, 2);
            if self.is_known(stem.as_str(), tag) {
                return Some(stem);
            }
        }
        None
    }

    /// Puts an ed behind a pronunciation.
    pub fn append_ed(&self, stem: &str) -> (r: String)
        ensures
            r@ == with_ed(self.lang, stem@),
    {
        let v = text::chars_of(stem);
        let mut r = stem.to_owned();
        let n: usize = v.len();
        if n == 0 {
            return r;
        }
        let last = v[n - 1];
        if last == 'p' || last == 'k' || last == 'f' || last == 'θ' || last == 'ʃ' || last == 's'
            || last == 'ʧ' {
            r.push('t');
        } else if last == 'd' {
            r.push(self.full_vowel());
            r.push('d');
        } else if last != 't' {
            r.push('d');
        } else if self.lang == Language::EnglishGB || n < 2 {
            r.push('ɪ');
            r.push('d');
        } else if tau(v[n - 2]) {
            r = text::string_of(&v, 0, n - 1);
            r.push('ɾ');
            r.push('ᵻ');
            r.push('d');
            assert(v@.subrange(0, n - 1) =~= stem@.drop_last());
        } else {
            r.push('ᵻ');
            r.push('d');
        }
        r
    }

    /// Puts an ing behind a pronunciation.
    pub fn append_ing(&self, stem: &str) -> (r: Option<String>)
        ensures
            match r {
                Some(full) => with_ing(self.lang, stem@) == Some(full@),
                None => with_ing(self.lang, stem@) is None,
            },
    {
        let v = text::chars_of(stem);
        let n: usize = v.len();
        if n == 0 {
            return None;
        }
        let last = v[n - 1];
        if self.lang == Language::EnglishGB {
            if last == 'ə' || last == 'ː' {
                return None;
            }
        } else if n >= 2 && last == 't' && tau(v[n - 2]) {
            let mut r = text::string_of(&v, 0, n - 1);
            r.push('ɾ');
            r.push('ɪ');
            r.push('ŋ');
            assert(v@.subrange(0, n - 1) =~= stem@.drop_last());
            return Some(r);
        }
        let mut r = stem.to_owned();
        r.push('ɪ');
        r.push('ŋ');
        Some(r)
    }

    /// Finds the stem of a lowercase word that ends in ing.
    pub fn find_stem_ing(&self, lower: &str, tag: &str) -> (r: Option<String>)
        ensures
            match r {
                Some(stem) => self.stem_of_ing(lower@) == Some(stem@),
                None => self.stem_of_ing(lower@) is None,
            },
    {
        proof {
            reveal_strlit("ing");
        }
        let bytes: usize = text::byte_len(lower);
        if bytes < 5 || !text::ends_with(lower, "ing") {
            return None;
        }
        let cut = text::drop_chars(lower, 3);
        if bytes > 5 && self.is_known(cut.as_str(), tag) {
            return Some(cut);
        }
        let stem = text::concat(cut.as_str(), "e");
        if self.is_known(stem.as_str(), tag) {
            return Some(stem);
        }
        let v = text::chars_of(lower);
        let n: usize = v.len();
        if bytes > 5 && n >= 5 && doubled(v[n - 5], v[n - 4]) {
            let single = text::drop_chars(lower, 4);
            if self.is_known(single.as_str(), tag) {
                return Some(single);
            }
        }
        None
    }

    /// Pronounces a word in ing by way of its stem.
    pub fn stem_ing(
        &self,
        word: &str,
        tag: &str,
        stress: Option<Stress>,
        ctx: Option<&TokenContext>,
    ) -> (r: Option<(String, i32)>)
        ensures
            lexicon::reading(r) == self.stemmed_ing(word@, tag@, stress, ctx),
    {
        let owned = unicode::to_lowercase(word);
        let stem = match self.find_stem_ing(owned.as_str(), tag) {
            Some(stem) => stem,
            None => {
                return None;
            },
        };
        match self.lookup(stem.as_str(), tag, stress, ctx) {
            Some((ps, rating)) => match self.append_ing(ps.as_str()) {
                Some(full) => Some((full, rating)),
                None => None,
            },
            None => None,
        }
    }
}

} // verus!
