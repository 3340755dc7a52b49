//! Words as a whole: which are known, which are special, and how one is pronounced.

use crate::lexicon;
use crate::lexicon::{Lexicon, PhonemeEntry, TokenContext};
use crate::stress::Stress;
use crate::text;
use crate::unicode;
use vstd::prelude::*;

verus! {

/// The characters that dictionary words are made of.
pub open spec fn is_lexicon_char(c: char) -> bool {
    c == '\'' || c == '-' || 'A' <= c <= '[' || 'a' <= c <= 'z'
}

/// Whether every character is alphabetic.
pub open spec fn all_alphabetic(s: Seq<char>) -> bool {
    forall|i: int| 0 <= i < s.len() ==> unicode::is_alphabetic(#[trigger] s[i])
}

/// Whether every character is one that dictionary words are made of.
pub open spec fn all_lexicon_chars(s: Seq<char>) -> bool {
    forall|i: int| 0 <= i < s.len() ==> is_lexicon_char(#[trigger] s[i])
}

/// Tells whether every character is alphabetic.
pub fn alphabetic(s: &str) -> (r: bool)
    ensures
        r == all_alphabetic(s@),
{
    for c in it: s.chars()
        invariant
            it.seq() == s@,
            forall|k: int| 0 <= k < it.index() ==> unicode::is_alphabetic(#[trigger] s@[k]),
    {
        if !unicode::char_is_alphabetic(c) {
            assert(!unicode::is_alphabetic(s@[it.index()]));
            return false;
        }
    }
    true
}

/// Tells whether every character is one that dictionary words are made of.
pub fn lexicon_chars(s: &str) -> (r: bool)
    ensures
        r == all_lexicon_chars(s@),
{
    for c in it: s.chars()
        invariant
            it.seq() == s@,
            forall|k: int| 0 <= k < it.index() ==> is_lexicon_char(#[trigger] s@[k]),
    {
        if !(c == '\'' || c == '-' || ('A' <= c && c <= '[') || ('a' <= c && c <= 'z')) {
            assert(!is_lexicon_char(s@[it.index()]));
            return false;
        }
    }
    true
}

/// Whether a word is made of letters and at least one dot.
pub open spec fn is_dotted(word: Seq<char>) -> bool {
    word.contains('.') && all_alphabetic(text::without(word, '.'))
}

/// Whether every stretch between dots takes fewer than three bytes.
pub open spec fn has_short_pieces(word: Seq<char>) -> bool {
    let pieces = text::split(word, '.');
    forall|i: int| 0 <= i < pieces.len() ==> text::utf8_len(#[trigger] pieces[i]) < 3
}

/// Tells whether every stretch between dots takes fewer than three bytes.
pub fn short_pieces(word: &str) -> (r: bool)
    ensures
        r == has_short_pieces(word@),
{
    let pieces = text::split_char(word, '.');
    let mut i: usize = 0;
    while i < pieces.len()
        invariant
            i <= pieces@.len(),
            text::views(pieces@) == text::split(word@, '.'),
            forall|k: int|
                0 <= k < i ==> text::utf8_len(#[trigger] text::split(word@, '.')[k]) < 3,
        decreases pieces@.len() - i,
    {
        assert(text::views(pieces@)[i as int] == pieces@[i as int]@);
        if text::byte_len(pieces[i].as_str()) >= 3 {
            return false;
        }
        i = i + 1;
    }
    true
}

/// Whether the next sound is a vowel, where a context says so.
pub open spec fn next_sound(ctx: Option<&TokenContext>) -> Option<bool> {
    match ctx {
        Some(c) => c.future_vowel,
        None => None,
    }
}

/// Whether a context says that the next word is "to".
pub open spec fn before_to(ctx: Option<&TokenContext>) -> bool {
    ctx matches Some(c) && c.future_to
}

/// Whether a stress level is above zero.
pub open spec fn raised(stress: Option<Stress>) -> bool {
    stress matches Some(s) && s.quarters > 0
}

/// The given stress level, or half stress where there is none.
pub open spec fn or_half(stress: Option<Stress>) -> Option<Stress> {
    match stress {
        Some(s) => Some(s),
        None => Some(Stress { quarters: 2 }),
    }
}

fn next_vowel(ctx: Option<&TokenContext>) -> (r: Option<bool>)
    ensures
        r == next_sound(ctx),
{
    match ctx {
        Some(c) => c.future_vowel,
        None => None,
    }
}

impl Lexicon {
    /// Whether a word can be pronounced without stemming: an entry answers for it, it is a
    /// named symbol, or it is made of dictionary letters and is a single letter, a word in
    /// capitals whose lower case has a certain entry, or in capitals behind its first letter.
    pub open spec fn knows(&self, word: Seq<char>) -> bool {
        ||| self.holds(word)
        ||| lexicon::named_symbols().contains_key(word)
        ||| {
            &&& all_alphabetic(word)
            &&& all_lexicon_chars(word)
            &&& {
                ||| text::utf8_len(word) == 1
                ||| word == unicode::uppercase(word) && lexicon::entry_of(
                    self.golds@,
                    unicode::lowercase(word),
                ) is Some
                ||| text::utf8_len(word) > 1 && word.skip(1) == unicode::uppercase(word.skip(1))
            }
        }
    }

    /// Tells whether a word can be pronounced without stemming.
    pub fn is_known(&self, word: &str, _tag: &str) -> (r: bool)
        ensures
            r == self.knows(word@),
    {
        let symbols = lexicon::get_symbols();
        if self.has(word) || symbols.contains_key(word) {
            return true;
        }
        if !alphabetic(word) {
            return false;
        }
        if !lexicon_chars(word) {
            return false;
        }
        let bytes: usize = text::byte_len(word);
        if bytes == 1 {
            return true;
        }
        let upper = unicode::to_uppercase(word);
        if text::same(word, upper.as_str()) {
            let lower = unicode::to_lowercase(word);
            if self.in_gold(lower.as_str()) {
                return true;
            }
        }
        if bytes > 1 {
            proof {
                text::lemma_utf8_len_chars(word@);
            }
            let rest = text::tail_of(word);
            let raised = unicode::to_uppercase(rest.as_str());
            if text::same(rest.as_str(), raised.as_str()) {
                return true;
            }
        }
        false
    }

    /// The plain pronunciation that the certain entries hold under just this key.
    pub open spec fn plain_gold(&self, key: Seq<char>) -> Option<Seq<char>> {
        if self.golds@.contains_key(key) {
            match self.golds@[key] {
                PhonemeEntry::Simple(ps) => Some(ps@),
                PhonemeEntry::Tagged(_) => None,
            }
        } else {
            None
        }
    }

    /// The pronunciation for a tag that the certain entries hold under just this key.
    pub open spec fn tagged_gold(&self, key: Seq<char>, tag: Seq<char>) -> Option<Seq<char>> {
        if self.golds@.contains_key(key) {
            match self.golds@[key] {
                PhonemeEntry::Simple(_) => None,
                PhonemeEntry::Tagged(m) => lexicon::tag_value(m@, tag),
            }
        } else {
            None
        }
    }

    fn get_plain_gold(&self, key: &str) -> (r: Option<String>)
        ensures
            match r {
                Some(ps) => self.plain_gold(key@) == Some(ps@),
                None => self.plain_gold(key@) is None,
            },
    {
        match self.golds.get(key) {
            Some(PhonemeEntry::Simple(ps)) => Some(ps.clone()),
            _ => None,
        }
    }

    fn get_tagged_gold(&self, key: &str, tag: &str) -> (r: Option<String>)
        ensures
            match r {
                Some(ps) => self.tagged_gold(key@, tag@) == Some(ps@),
                None => self.tagged_gold(key@, tag@) is None,
            },
    {
        match self.golds.get(key) {
            Some(PhonemeEntry::Tagged(m)) => match m.get(tag) {
                Some(Some(ps)) => Some(ps.clone()),
                _ => None,
            },
            _ => None,
        }
    }

    /// The pronunciation of "am": spelt out as a noun; the full form in capitals, under
    /// stress or where the next sound is not known; else the weak form.
    pub open spec fn special_am(
        &self,
        word: Seq<char>,
        tag: Seq<char>,
        stress: Option<Stress>,
        ctx: Option<&TokenContext>,
    ) -> Option<(Seq<char>, i32)> {
        if "NN"@.is_prefix_of(tag) {
            lexicon::spelt(self.golds@, word)
        } else if (next_sound(ctx) is None || word != "am"@ || raised(stress)) && self.plain_gold(
            "am"@,
        ) is Some {
            Some((self.plain_gold("am"@)->0, 4i32))
        } else {
            Some(("ɐm"@, 4i32))
        }
    }

    /// The pronunciation of "to", which depends on the next sound.
    pub open spec fn special_to(&self, ctx: Option<&TokenContext>) -> Option<(Seq<char>, i32)> {
        match self.plain_gold("to"@) {
            None => None,
            Some(ps) => match next_sound(ctx) {
                None => Some((ps, 4i32)),
                Some(false) => Some(("tə"@, 4i32)),
                Some(true) => Some(("tʊ"@, 4i32)),
            },
        }
    }

    /// The pronunciation of "used": that of the past tense before "to", else the default.
    pub open spec fn special_used(&self, tag: Seq<char>, ctx: Option<&TokenContext>) -> Option<
        (Seq<char>, i32),
    > {
        let habit = (tag == "VBD"@ || tag == "JJ"@) && before_to(ctx);
        if habit && self.tagged_gold("used"@, "VBD"@) is Some {
            Some((self.tagged_gold("used"@, "VBD"@)->0, 4i32))
        } else {
            match self.tagged_gold("used"@, "DEFAULT"@) {
                Some(ps) => Some((ps, 4i32)),
                None => None,
            }
        }
    }

    /// The pronunciation of the words that do not follow their entries: named symbols, dotted
    /// abbreviations, and a few small words whose form depends on tag and context.
    #[verifier::opaque]
    pub open spec fn special(
        &self,
        word: Seq<char>,
        tag: Seq<char>,
        stress: Option<Stress>,
        ctx: Option<&TokenContext>,
    ) -> Option<(Seq<char>, i32)> {
        if tag == "ADD"@ && lexicon::address_symbols().contains_key(word) {
            self.looked_up(
                lexicon::address_symbols()[word]@,
                "NN"@,
                Some(Stress { quarters: (-2) as i64 }),
                ctx,
            )
        } else if lexicon::named_symbols().contains_key(word) {
            self.looked_up(lexicon::named_symbols()[word]@, "NN"@, None, ctx)
        } else if is_dotted(word) {
            if has_short_pieces(word) {
                lexicon::spelt(self.golds@, word)
            } else {
                None
            }
        } else if word == "a"@ || word == "A"@ {
            if tag == "DT"@ {
                Some(("ɐ"@, 4i32))
            } else {
                Some(("ˈA"@, 4i32))
            }
        } else if word == "am"@ || word == "Am"@ || word == "AM"@ {
            self.special_am(word, tag, stress, ctx)
        } else if word == "an"@ || word == "An"@ || word == "AN"@ {
            if word == "AN"@ && "NN"@.is_prefix_of(tag) {
                lexicon::spelt(self.golds@, word)
            } else {
                Some(("ɐn"@, 4i32))
            }
        } else if word == "I"@ && tag == "PRP"@ {
            Some(("ˌI"@, 4i32))
        } else if (word == "by"@ || word == "By"@ || word == "BY"@) && lexicon::parent_tag(tag)
            == "ADV"@ {
            Some(("bˈI"@, 4i32))
        } else if word == "to"@ || word == "To"@ || (word == "TO"@ && (tag == "TO"@ || tag
            == "IN"@)) {
            self.special_to(ctx)
        } else if word == "in"@ || word == "In"@ || (word == "IN"@ && tag != "NNP"@) {
            if next_sound(ctx) is None || tag != "IN"@ {
                Some(("ˈɪn"@, 4i32))
            } else {
                Some(("ɪn"@, 4i32))
            }
        } else if word == "the"@ || word == "The"@ || (word == "THE"@ && tag == "DT"@) {
            if next_sound(ctx) == Some(true) {
                Some(("ði"@, 4i32))
            } else {
                Some(("ðə"@, 4i32))
            }
        } else if tag == "IN"@ && (unicode::lowercase(word) == "vs"@ || unicode::lowercase(word)
            == "vs."@) {
            self.looked_up("versus"@, "NN"@, None, ctx)
        } else if word == "used"@ || word == "Used"@ || word == "USED"@ {
            self.special_used(tag, ctx)
        } else {
            None
        }
    }

    fn get_special_am(
        &self,
        word: &str,
        tag: &str,
        stress: Option<Stress>,
        ctx: Option<&TokenContext>,
    ) -> (r: Option<(String, i32)>)
        ensures
            lexicon::reading(r) == self.special_am(word@, tag@, stress, ctx),
    {
        if text::starts_with(tag, "NN") {
            return self.get_nnp(word);
        }
        let strong = match stress {
            Some(s) => s.quarters > 0,
            None => false,
        };
        if next_vowel(ctx).is_none() || !text::same(word, "am") || strong {
            if let Some(ps) = self.get_plain_gold("am") {
                return Some((ps, 4));
            }
        }
        Some(("ɐm".to_owned(), 4))
    }

    fn get_special_to(&self, ctx: Option<&TokenContext>) -> (r: Option<(String, i32)>)
        ensures
            lexicon::reading(r) == self.special_to(ctx),
    {
        match self.get_plain_gold("to") {
            None => None,
            Some(ps) => match next_vowel(ctx) {
                None => Some((ps, 4)),
                Some(false) => Some(("tə".to_owned(), 4)),
                Some(true) => Some(("tʊ".to_owned(), 4)),
            },
        }
    }

    fn get_special_used(&self, tag: &str, ctx: Option<&TokenContext>) -> (r: Option<
        (String, i32),
    >)
        ensures
            lexicon::reading(r) == self.special_used(tag@, ctx),
    {
        let to_follows = match ctx {
            Some(c) => c.future_to,
            None => false,
        };
        if (text::same(tag, "VBD") || text::same(tag, "JJ")) && to_follows {
            if let Some(ps) = self.get_tagged_gold("used", "VBD") {
                return Some((ps, 4));
            }
        }
        match self.get_tagged_gold("used", "DEFAULT") {
            Some(ps) => Some((ps, 4)),
            None => None,
        }
    }

    /// Pronounces a word that does not follow its entry.
    pub fn get_special_case(
        &self,
        word: &str,
        tag: &str,
        stress: Option<Stress>,
        ctx: Option<&TokenContext>,
    ) -> (r: Option<(String, i32)>)
        ensures
            lexicon::reading(r) == self.special(word@, tag@, stress, ctx),
    {
        proof {
            reveal(Lexicon::special);
        }
        let address = lexicon::get_add_symbols();
        let symbols = lexicon::get_symbols();
        if text::same(tag, "ADD") {
            if let Some(name) = address.get(word) {
                return self.lookup(*name, "NN", Some(Stress::halves(-1)), ctx);
            }
        }
        if let Some(name) = symbols.get(word) {
            return self.lookup(*name, "NN", None, ctx);
        }
        if text::contains_char(word, '.') {
            let letters = text::remove_char(word, '.');
            if alphabetic(letters.as_str()) {
                if short_pieces(word) {
                    return self.get_nnp(word);
                }
                return None;
            }
        }
        if text::same(word, "a") || text::same(word, "A") {
            if text::same(tag, "DT") {
                Some(("ɐ".to_owned(), 4))
            } else {
                Some(("ˈA".to_owned(), 4))
            }
        } else if text::same(word, "am") || text::same(word, "Am") || text::same(word, "AM") {
            self.get_special_am(word, tag, stress, ctx)
        } else if text::same(word, "an") || text::same(word, "An") || text::same(word, "AN") {
            if text::same(word, "AN") && text::starts_with(tag, "NN") {
                return self.get_nnp(word);
            }
            Some(("ɐn".to_owned(), 4))
        } else if text::same(word, "I") && text::same(tag, "PRP") {
            Some(("ˌI".to_owned(), 4))
        } else if (text::same(word, "by") || text::same(word, "By") || text::same(word, "BY"))
            && text::same(Lexicon::get_parent_tag(tag), "ADV") {
            Some(("bˈI".to_owned(), 4))
        } else if text::same(word, "to") || text::same(word, "To") || (text::same(word, "TO")
            && (text::same(tag, "TO") || text::same(tag, "IN"))) {
            self.get_special_to(ctx)
        } else if text::same(word, "in") || text::same(word, "In") || (text::same(word, "IN")
            && !text::same(tag, "NNP")) {
            if next_vowel(ctx).is_none() || !text::same(tag, "IN") {
                Some(("ˈɪn".to_owned(), 4))
            } else {
                Some(("ɪn".to_owned(), 4))
            }
        } else if text::same(word, "the") || text::same(word, "The") || (text::same(word, "THE")
            && text::same(tag, "DT")) {
            match next_vowel(ctx) {
                Some(true) => Some(("ði".to_owned(), 4)),
                _ => Some(("ðə".to_owned(), 4)),
            }
        } else if text::same(tag, "IN") && self.is_versus(word) {
            self.lookup("versus", "NN", None, ctx)
        } else if text::same(word, "used") || text::same(word, "Used") || text::same(
            word,
            "USED",
        ) {
            self.get_special_used(tag, ctx)
        } else {
            None
        }
    }

    fn is_versus(&self, word: &str) -> (r: bool)
        ensures
            r == (unicode::lowercase(word@) == "vs"@ || unicode::lowercase(word@) == "vs."@),
    {
        let lower = unicode::to_lowercase(word);
        text::same(lower.as_str(), "vs") || text::same(lower.as_str(), "vs.")
    }

    /// Whether a word in capitals or capitalized is to be read in lower case: it has no entry
    /// of its own, is not a short proper noun, and its lower case has an entry or a stem.
    pub open spec fn folds(
        &self,
        word: Seq<char>,
        tag: Seq<char>,
        stress: Option<Stress>,
        ctx: Option<&TokenContext>,
    ) -> bool {
        let lower = unicode::lowercase(word);
        &&& text::utf8_len(word) > 1
        &&& all_alphabetic(text::without(word, '\''))
        &&& word != lower
        &&& (tag != "NNP"@ || text::utf8_len(word) > 7)
        &&& !self.holds(word)
        &&& (word == unicode::uppercase(word) || word.skip(1) == unicode::lowercase(word.skip(1)))
        &&& {
            ||| self.holds(lower)
            ||| self.stemmed_s(lower, tag, stress, ctx) is Some
            ||| self.stemmed_ed(lower, tag, stress, ctx) is Some
            ||| self.stemmed_ing(lower, tag, stress, ctx) is Some
        }
    }

    /// The pronunciation of a word: a special form first, then the dictionaries' own, then
    /// that of a possessive, and last that of an inflected form by way of its stem. The stem
    /// of a word in ing gets half stress where no level is asked for.
    #[verifier::opaque]
    pub open spec fn pronounced(
        &self,
        word: Seq<char>,
        tag: Seq<char>,
        stress: Option<Stress>,
        ctx: Option<&TokenContext>,
    ) -> Option<(Seq<char>, i32)> {
        let w = if self.folds(word, tag, stress, ctx) {
            unicode::lowercase(word)
        } else {
            word
        };
        let n = w.len();
        if self.special(word, tag, stress, ctx) is Some {
            self.special(word, tag, stress, ctx)
        } else if self.knows(w) {
            self.looked_up(w, tag, stress, ctx)
        } else if "s'"@.is_suffix_of(w) && self.knows(w.take(n - 2)) {
            self.looked_up(w.take(n - 2) + "'s"@, tag, stress, ctx)
        } else if "'"@.is_suffix_of(w) && self.knows(w.take(n - 1)) {
            self.looked_up(w.take(n - 1), tag, stress, ctx)
        } else if self.stemmed_s(w, tag, stress, ctx) is Some {
            self.stemmed_s(w, tag, stress, ctx)
        } else if self.stemmed_ed(w, tag, stress, ctx) is Some {
            self.stemmed_ed(w, tag, stress, ctx)
        } else {
            self.stemmed_ing(w, tag, or_half(stress), ctx)
        }
    }

    fn should_fold(
        &self,
        word: &str,
        lower: &str,
        tag: &str,
        stress: Option<Stress>,
        ctx: Option<&TokenContext>,
    ) -> (r: bool)
        requires
            lower@ == unicode::lowercase(word@),
        ensures
            r == self.folds(word@, tag@, stress, ctx),
    {
        let bytes: usize = text::byte_len(word);
        if bytes <= 1 {
            return false;
        }
        let letters = text::remove_char(word, '\'');
        if !alphabetic(letters.as_str()) || text::same(word, lower) {
            return false;
        }
        if text::same(tag, "NNP") && bytes <= 7 {
            return false;
        }
        if self.has(word) {
            return false;
        }
        proof {
            text::lemma_utf8_len_chars(word@);
        }
        let upper = unicode::to_uppercase(word);
        if !text::same(word, upper.as_str()) {
            let rest = text::tail_of(word);
            let low_rest = unicode::to_lowercase(rest.as_str());
            if !text::same(rest.as_str(), low_rest.as_str()) {
                return false;
            }
        }
        self.has(lower) || self.stem_s(lower, tag, stress, ctx).is_some() || self.stem_ed(
            lower,
            tag,
            stress,
            ctx,
        ).is_some() || self.stem_ing(lower, tag, stress, ctx).is_some()
    }

    /// Pronounces a word.
    pub fn get_word(
        &self,
        word: &str,
        tag: &str,
        stress: Option<Stress>,
        ctx: Option<&TokenContext>,
    ) -> (r: Option<(String, i32)>)
        ensures
            lexicon::reading(r) == self.pronounced(word@, tag@, stress, ctx),
    {
        proof {
            reveal(Lexicon::pronounced);
            reveal_strlit("s'");
            reveal_strlit("'");
        }
        if let Some(result) = self.get_special_case(word, tag, stress, ctx) {
            return Some(result);
        }
        let lower = unicode::to_lowercase(word);
        let w = if self.should_fold(word, lower.as_str(), tag, stress, ctx) {
            lower.as_str()
        } else {
            word
        };
        if self.is_known(w, tag) {
            return self.lookup(w, tag, stress, ctx);
        }
        if text::ends_with(w, "s'") {
            let cut = text::drop_chars(w, 2);
            if self.is_known(cut.as_str(), tag) {
                let owner = text::concat(cut.as_str(), "'s");
                return self.lookup(owner.as_str(), tag, stress, ctx);
            }
        }
        if text::ends_with(w, "'") {
            let cut = text::drop_chars(w, 1);
            if self.is_known(cut.as_str(), tag) {
                return self.lookup(cut.as_str(), tag, stress, ctx);
            }
        }
        if let Some(result) = self.stem_s(w, tag, stress, ctx) {
            return Some(result);
        }
        if let Some(result) = self.stem_ed(w, tag, stress, ctx) {
            return Some(result);
        }
        let level = match stress {
            Some(s) => Some(s),
            None => Some(Stress::halves(1)),
        };
        self.stem_ing(w, tag, level, ctx)
    }
}

} // verus!
