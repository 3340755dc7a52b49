//! Pronunciation dictionaries: entries, the casings they answer for, and lookup.

use crate::language::Language;
use crate::stress;
use crate::stress::Stress;
use crate::text;
use crate::unicode;
use vstd::hash_map::StringHashMap;
use vstd::prelude::*;

verus! {

/// What is known of the words behind the one being pronounced.
#[derive(Debug, Clone, Copy, PartialEq, Eq, Structural)]
pub struct TokenContext {
    /// Whether the next sound is a vowel, where that is known.
    pub future_vowel: Option<bool>,
    /// Whether the next word is "to".
    pub future_to: bool,
}

impl Default for TokenContext {
    /// Nothing known.
    fn default() -> (r: Self)
        ensures
            r == (TokenContext { future_vowel: None, future_to: false }),
    {
        TokenContext { future_vowel: None, future_to: false }
    }
}

/// A table from parts of speech to pronunciations, either of which may be missing. Of two
/// pairs with one tag the later one counts.
///
/// It is a list, so that an entry can be copied, shown and written back to a file, which a
/// `StringHashMap` cannot; a word has a handful of tags.
#[derive(Debug, Clone)]
pub struct TagTable {
    pub pairs: Vec<(String, Option<String>)>,
}

/// The pronunciation of a word: one for all uses, or one for each part of speech.
#[derive(Debug, Clone)]
pub enum PhonemeEntry {
    Simple(String),
    Tagged(TagTable),
}

/// The table that holds the given pairs. Of two pairs with one key the later one counts.
pub open spec fn tag_map(pairs: Seq<(String, Option<String>)>) -> Map<Seq<char>, Option<String>>
    decreases pairs.len(),
{
    if pairs.len() == 0 {
        Map::empty()
    } else {
        tag_map(pairs.drop_last()).insert(pairs.last().0@, pairs.last().1)
    }
}

/// The table that holds the given entries. Of two entries for one word the later one counts.
pub open spec fn word_map(entries: Seq<(String, PhonemeEntry)>) -> Map<Seq<char>, PhonemeEntry>
    decreases entries.len(),
{
    if entries.len() == 0 {
        Map::empty()
    } else {
        word_map(entries.drop_last()).insert(entries.last().0@, entries.last().1)
    }
}

impl View for TagTable {
    type V = Map<Seq<char>, Option<String>>;

    open spec fn view(&self) -> Map<Seq<char>, Option<String>> {
        tag_map(self.pairs@)
    }
}

impl TagTable {
    /// What the table holds for a tag.
    pub fn get(&self, tag: &str) -> (r: Option<&Option<String>>)
        ensures
            match r {
                Some(v) => self@.contains_key(tag@) && self@[tag@] == *v,
                None => !self@.contains_key(tag@),
            },
    {
        let ghost all = self.pairs@;
        let mut i: usize = self.pairs.len();
        assert(all.take(i as int) =~= all);
        while i > 0
            invariant
                i <= all.len(),
                all == self.pairs@,
                self@.contains_key(tag@) == tag_map(all.take(i as int)).contains_key(tag@),
                self@.contains_key(tag@) ==> self@[tag@] == tag_map(all.take(i as int))[tag@],
            decreases i,
        {
            assert(all.take(i as int).drop_last() =~= all.take(i - 1));
            i = i - 1;
            let pair = &self.pairs[i];
            if text::same(pair.0.as_str(), tag) {
                return Some(&pair.1);
            }
        }
        None
    }

    /// Whether the table holds anything for a tag.
    pub fn contains_key(&self, tag: &str) -> (r: bool)
        ensures
            r == self@.contains_key(tag@),
    {
        self.get(tag).is_some()
    }
}

impl PhonemeEntry {
    /// An entry with a pronunciation for each part of speech.
    pub fn tagged(pairs: Vec<(String, Option<String>)>) -> (r: Self)
        ensures
            r matches PhonemeEntry::Tagged(m) && m@ == tag_map(pairs@),
    {
        PhonemeEntry::Tagged(TagTable { pairs })
    }
}

/// A table of the given entries.
pub fn word_table(entries: Vec<(String, PhonemeEntry)>) -> (r: StringHashMap<PhonemeEntry>)
    ensures
        r@ == word_map(entries@),
{
    let mut m: StringHashMap<PhonemeEntry> = StringHashMap::new();
    for entry in it: entries
        invariant
            it.seq() == entries@,
            m@ == word_map(entries@.take(it.index())),
    {
        proof {
            assert(entries@.take(it.index() + 1).drop_last() =~= entries@.take(it.index()));
        }
        m.insert(entry.0, entry.1);
    }
    assert(entries@.take(entries@.len() as int) =~= entries@);
    m
}

/// The symbols that are read out in an address, with their names.
pub open spec fn address_symbols() -> Map<Seq<char>, &'static str> {
    map!["."@ => "dot", "/"@ => "slash"]
}

/// The symbols that are read out anywhere, with their names.
pub open spec fn named_symbols() -> Map<Seq<char>, &'static str> {
    map!["%"@ => "percent", "&"@ => "and", "+"@ => "plus", "@"@ => "at"]
}

/// The symbols that are read out in an address, with their names.
pub fn get_add_symbols() -> (m: StringHashMap<&'static str>)
    ensures
        m@ == address_symbols(),
{
    let mut m: StringHashMap<&'static str> = StringHashMap::new();
    m.insert(".".to_owned(), "dot");
    m.insert("/".to_owned(), "slash");
    m
}

/// The symbols that are read out anywhere, with their names.
pub fn get_symbols() -> (m: StringHashMap<&'static str>)
    ensures
        m@ == named_symbols(),
{
    let mut m: StringHashMap<&'static str> = StringHashMap::new();
    m.insert("%".to_owned(), "percent");
    m.insert("&".to_owned(), "and");
    m.insert("+".to_owned(), "plus");
    m.insert("@".to_owned(), "at");
    m
}

/// `lower` with its first character in upper case.
pub open spec fn capitalized(lower: Seq<char>) -> Seq<char> {
    if lower.len() == 0 {
        Seq::empty()
    } else {
        unicode::char_uppercase(lower[0]) + lower.skip(1)
    }
}

/// Puts the first character in upper case.
pub fn capitalize(lower: &str) -> (r: String)
    ensures
        r@ == capitalized(lower@),
{
    let v = text::chars_of(lower);
    if v.len() == 0 {
        return String::new();
    }
    let first = unicode::char_to_uppercase(v[0]);
    let rest = text::tail_of(lower);
    text::concat(first.as_str(), rest.as_str())
}

/// The other casing that answers for a word: of a lowercase word its capitalized form, of a
/// capitalized word its lowercase form. A one-character word or any other casing has none.
pub open spec fn variant_of(word: Seq<char>) -> Option<Seq<char>> {
    let lower = unicode::lowercase(word);
    let capital = capitalized(lower);
    if word.len() < 2 {
        None
    } else if word == lower {
        if capital != lower {
            Some(capital)
        } else {
            None
        }
    } else if word == capital {
        Some(lower)
    } else {
        None
    }
}

/// What a table has for a word: the word's own entry first, else that of its other casing.
pub open spec fn entry_of(table: Map<Seq<char>, PhonemeEntry>, word: Seq<char>) -> Option<
    PhonemeEntry,
> {
    if table.contains_key(word) {
        Some(table[word])
    } else {
        match variant_of(word) {
            Some(v) => if table.contains_key(v) {
                Some(table[v])
            } else {
                None
            },
            None => None,
        }
    }
}

/// The pronunciation that a tagged entry has for one tag.
pub open spec fn tag_value(m: Map<Seq<char>, Option<String>>, tag: Seq<char>) -> Option<
    Seq<char>,
> {
    if m.contains_key(tag) {
        match m[tag] {
            Some(ps) => Some(ps@),
            None => None,
        }
    } else {
        None
    }
}

/// The coarse part of speech that a tag belongs to.
pub open spec fn parent_tag(tag: Seq<char>) -> Seq<char> {
    if "VB"@.is_prefix_of(tag) {
        "VERB"@
    } else if "NN"@.is_prefix_of(tag) {
        "NOUN"@
    } else if "ADV"@.is_prefix_of(tag) || "RB"@.is_prefix_of(tag) {
        "ADV"@
    } else if "ADJ"@.is_prefix_of(tag) || "JJ"@.is_prefix_of(tag) {
        "ADJ"@
    } else {
        tag
    }
}

/// The pronunciation that an entry gives in a context.
///
/// A tagged entry is asked for the tag "None" where it has one and the next sound is not
/// known, else for the word's own tag. Failing that it is asked for the parent of that tag,
/// and last for "DEFAULT".
pub open spec fn resolved(
    entry: PhonemeEntry,
    tag: Seq<char>,
    ctx: Option<&TokenContext>,
) -> Option<Seq<char>> {
    match entry {
        PhonemeEntry::Simple(ps) => Some(ps@),
        PhonemeEntry::Tagged(m) => {
            let unsure = ctx matches Some(c) && c.future_vowel is None;
            let asked = if unsure && m@.contains_key("None"@) {
                "None"@
            } else {
                tag
            };
            if tag_value(m@, asked) is Some {
                tag_value(m@, asked)
            } else if tag_value(m@, parent_tag(asked)) is Some {
                tag_value(m@, parent_tag(asked))
            } else {
                tag_value(m@, "DEFAULT"@)
            }
        },
    }
}

/// The pronunciations of a word's letters, one for each letter that has a plain entry under
/// its capital. None where a letter has no entry.
pub open spec fn letter_names(golds: Map<Seq<char>, PhonemeEntry>, word: Seq<char>) -> Option<
    Seq<Seq<char>>,
>
    decreases word.len(),
{
    if word.len() == 0 {
        Some(Seq::empty())
    } else {
        let key = unicode::char_uppercase(word.last());
        match letter_names(golds, word.drop_last()) {
            None => None,
            Some(names) => if !unicode::is_alphabetic(word.last()) {
                Some(names)
            } else if golds.contains_key(key) {
                match golds[key] {
                    PhonemeEntry::Simple(ps) => Some(names.push(ps@)),
                    PhonemeEntry::Tagged(_) => Some(names),
                }
            } else {
                None
            },
        }
    }
}

/// `s` with its last secondary stress mark made primary.
pub open spec fn last_promoted(s: Seq<char>) -> Seq<char>
    decreases s.len(),
{
    if s.len() == 0 {
        s
    } else if s.last() == stress::SECONDARY {
        s.drop_last().push(stress::PRIMARY)
    } else {
        last_promoted(s.drop_last()).push(s.last())
    }
}

/// A word read letter by letter: every letter's name, unstressed but for primary stress on
/// the last stressed one.
pub open spec fn spelt(golds: Map<Seq<char>, PhonemeEntry>, word: Seq<char>) -> Option<
    (Seq<char>, i32),
> {
    match letter_names(golds, word) {
        None => None,
        Some(names) => if names.len() == 0 {
            None
        } else {
            let level = stress::stressed(
                text::joined(names, Seq::empty()),
                Some(Stress { quarters: 0 }),
            );
            Some((last_promoted(level), 3i32))
        },
    }
}

/// A pronunciation with its rating.
pub open spec fn reading(r: Option<(String, i32)>) -> Option<(Seq<char>, i32)> {
    match r {
        Some((ps, rating)) => Some((ps@, rating)),
        None => None,
    }
}

/// The dictionaries of one dialect.
pub struct Lexicon {
    pub lang: Language,
    /// The stress of a capitalized word and of one all in capitals.
    pub cap_stresses: (Stress, Stress),
    /// The entries that are certain.
    pub golds: StringHashMap<PhonemeEntry>,
    /// The entries that are likely.
    pub silvers: StringHashMap<PhonemeEntry>,
}

impl Lexicon {
    /// A lexicon of a dialect over the dialect's two lists of entries.
    pub fn new(
        lang: Language,
        golds: Vec<(String, PhonemeEntry)>,
        silvers: Vec<(String, PhonemeEntry)>,
    ) -> (r: Self)
        ensures
            r.lang == lang,
            r.cap_stresses == (Stress { quarters: 2 }, Stress { quarters: 8 }),
            r.golds@ == word_map(golds@),
            r.silvers@ == word_map(silvers@),
    {
        Lexicon {
            lang,
            cap_stresses: (Stress::halves(1), Stress::whole(2)),
            golds: word_table(golds),
            silvers: word_table(silvers),
        }
    }

    /// What a table has for a word.
    pub fn entry<'a>(table: &'a StringHashMap<PhonemeEntry>, word: &str) -> (r: Option<
        &'a PhonemeEntry,
    >)
        ensures
            match r {
                Some(e) => entry_of(table@, word@) == Some(*e),
                None => entry_of(table@, word@) is None,
            },
    {
        match table.get(word) {
            Some(e) => Some(e),
            None => match Self::case_variant(word) {
                Some(v) => table.get(v.as_str()),
                None => None,
            },
        }
    }

    /// The other casing that answers for a word.
    pub fn case_variant(word: &str) -> (r: Option<String>)
        ensures
            match r {
                Some(v) => variant_of(word@) == Some(v@),
                None => variant_of(word@) is None,
            },
    {
        if word.unicode_len() < 2 {
            return None;
        }
        let lower = unicode::to_lowercase(word);
        let capital = capitalize(lower.as_str());
        if text::same(word, lower.as_str()) {
            if text::same(capital.as_str(), lower.as_str()) {
                None
            } else {
                Some(capital)
            }
        } else if text::same(word, capital.as_str()) {
            Some(lower)
        } else {
            None
        }
    }

    /// Whether the certain entries answer for a word.
    pub fn in_gold(&self, word: &str) -> (r: bool)
        ensures
            r == (entry_of(self.golds@, word@) is Some),
    {
        Self::entry(&self.golds, word).is_some()
    }

    /// Whether any entry answers for a word.
    pub open spec fn holds(&self, word: Seq<char>) -> bool {
        entry_of(self.golds@, word) is Some || entry_of(self.silvers@, word) is Some
    }

    /// Whether any entry answers for a word.
    pub fn has(&self, word: &str) -> (r: bool)
        ensures
            r == self.holds(word@),
    {
        self.in_gold(word) || Self::entry(&self.silvers, word).is_some()
    }

    /// The pronunciation that an entry gives in a context.
    pub fn resolve_phonemes(
        &self,
        entry: &PhonemeEntry,
        tag: &str,
        ctx: Option<&TokenContext>,
    ) -> (r: Option<String>)
        ensures
            match r {
                Some(ps) => resolved(*entry, tag@, ctx) == Some(ps@),
                None => resolved(*entry, tag@, ctx) is None,
            },
    {
        match entry {
            PhonemeEntry::Simple(ps) => Some(ps.clone()),
            PhonemeEntry::Tagged(m) => {
                let mut asked = tag;
                if let Some(c) = ctx {
                    if c.future_vowel.is_none() && m.contains_key("None") {
                        asked = "None";
                    }
                }
                if let Some(Some(ps)) = m.get(asked) {
                    return Some(ps.clone());
                }
                let parent = Lexicon::get_parent_tag(asked);
                if let Some(Some(ps)) = m.get(parent) {
                    return Some(ps.clone());
                }
                if let Some(Some(ps)) = m.get("DEFAULT") {
                    return Some(ps.clone());
                }
                None
            },
        }
    }

    /// The coarse part of speech that a tag belongs to.
    pub fn get_parent_tag(tag: &str) -> (r: &str)
        ensures
            r@ == parent_tag(tag@),
    {
        if text::starts_with(tag, "VB") {
            "VERB"
        } else if text::starts_with(tag, "NN") {
            "NOUN"
        } else if text::starts_with(tag, "ADV") || text::starts_with(tag, "RB") {
            "ADV"
        } else if text::starts_with(tag, "ADJ") || text::starts_with(tag, "JJ") {
            "ADJ"
        } else {
            tag
        }
    }

    /// Brings a phoneme string to the given stress level.
    pub fn apply_stress(&self, ps: &str, stress: Option<Stress>) -> (r: String)
        ensures
            r@ == stress::stressed(ps@, stress),
    {
        stress::apply_stress(ps, stress)
    }

    /// The dictionaries' pronunciation of a word, with its rating: 4 for a certain entry, 3
    /// for a likely one or a word that is spelt out.
    ///
    /// A word all in capitals that the certain entries do not answer for is looked up in
    /// lower case. If it is then tagged as a proper noun, the likely entries are not asked,
    /// and it is spelt out where the certain ones give nothing with primary stress.
    pub open spec fn looked_up(
        &self,
        word: Seq<char>,
        tag: Seq<char>,
        stress: Option<Stress>,
        ctx: Option<&TokenContext>,
    ) -> Option<(Seq<char>, i32)> {
        let folded = word == unicode::uppercase(word) && entry_of(self.golds@, word) is None;
        let key = if folded {
            unicode::lowercase(word)
        } else {
            word
        };
        let name = folded && tag == "NNP"@;
        let gold = match entry_of(self.golds@, key) {
            Some(e) => resolved(e, tag, ctx),
            None => None,
        };
        let silver = match entry_of(self.silvers@, key) {
            Some(e) => resolved(e, tag, ctx),
            None => None,
        };
        let found: Option<(Seq<char>, i32)> = if gold is Some {
            Some((gold->0, 4i32))
        } else if !name && silver is Some {
            Some((silver->0, 3i32))
        } else {
            None
        };
        let firm = found matches Some((ps, _)) && ps.contains(stress::PRIMARY);
        let letters = if name && !firm {
            spelt(self.golds@, key)
        } else {
            None
        };
        let best = if letters is Some {
            letters
        } else {
            found
        };
        match best {
            Some((ps, rating)) => Some((stress::stressed(ps, stress), rating)),
            None => None,
        }
    }

    /// Looks a word up.
    pub fn lookup(
        &self,
        word: &str,
        tag: &str,
        stress: Option<Stress>,
        ctx: Option<&TokenContext>,
    ) -> (r: Option<(String, i32)>)
        ensures
            reading(r) == self.looked_up(word@, tag@, stress, ctx),
    {
        let mut key = word.to_owned();
        let mut name = false;
        let upper = unicode::to_uppercase(word);
        if text::same(word, upper.as_str()) && !self.in_gold(word) {
            key = unicode::to_lowercase(word);
            name = text::same(tag, "NNP");
        }
        let mut found: Option<(String, i32)> = None;
        if let Some(e) = Self::entry(&self.golds, key.as_str()) {
            if let Some(ps) = self.resolve_phonemes(e, tag, ctx) {
                found = Some((ps, 4));
            }
        }
        if found.is_none() && !name {
            if let Some(e) = Self::entry(&self.silvers, key.as_str()) {
                if let Some(ps) = self.resolve_phonemes(e, tag, ctx) {
                    found = Some((ps, 3));
                }
            }
        }
        if name {
            let firm = match &found {
                Some((ps, _)) => text::contains_char(ps.as_str(), stress::PRIMARY),
                None => false,
            };
            if !firm {
                if let Some((ps, rating)) = self.get_nnp(key.as_str()) {
                    found = Some((ps, rating));
                }
            }
        }
        match found {
            Some((ps, rating)) => Some((self.apply_stress(ps.as_str(), stress), rating)),
            None => None,
        }
    }

    /// Reads a word letter by letter.
    pub fn get_nnp(&self, word: &str) -> (r: Option<(String, i32)>)
        ensures
            reading(r) == spelt(self.golds@, word@),
    {
        let v = text::chars_of(word);
        let mut parts: Vec<String> = Vec::new();
        let mut i: usize = 0;
        assert(text::views(parts@) =~= Seq::<Seq<char>>::empty());
        while i < v.len()
            invariant
                i <= v@.len(),
                v@ == word@,
                letter_names(self.golds@, word@.take(i as int)) == Some(text::views(parts@)),
            decreases v@.len() - i,
        {
            let c = v[i];
            proof {
                assert(word@.take(i + 1).drop_last() =~= word@.take(i as int));
            }
            if unicode::char_is_alphabetic(c) {
                let upper = unicode::char_to_uppercase(c);
                match self.golds.get(upper.as_str()) {
                    Some(PhonemeEntry::Simple(ps)) => {
                        proof {
                            text::lemma_views_push(parts@, *ps);
                        }
                        parts.push(ps.clone());
                    },
                    Some(PhonemeEntry::Tagged(_)) => {},
                    None => {
                        proof {
                            lemma_letter_names_stop(self.golds@, word@, i + 1);
                        }
                        return None;
                    },
                }
            }
            i = i + 1;
        }
        assert(word@.take(v@.len() as int) =~= word@);
        if parts.len() == 0 {
            return None;
        }
        let all = text::join(&parts, "");
        proof {
            reveal_strlit("");
            assert(""@ =~= Seq::<char>::empty());
        }
        let level = self.apply_stress(all.as_str(), Some(Stress::whole(0)));
        Some((promote_last(level.as_str()), 3))
    }
}

/// A letter without a name leaves the whole word without one.
proof fn lemma_letter_names_stop(golds: Map<Seq<char>, PhonemeEntry>, word: Seq<char>, n: int)
    requires
        0 <= n <= word.len(),
        letter_names(golds, word.take(n)) is None,
    ensures
        letter_names(golds, word) is None,
    decreases word.len(),
{
    if n == word.len() {
        assert(word.take(n) =~= word);
    } else {
        assert(word.drop_last().take(n) =~= word.take(n));
        lemma_letter_names_stop(golds, word.drop_last(), n);
    }
}

/// Makes the last secondary stress mark primary.
fn promote_last(s: &str) -> (r: String)
    ensures
        r@ == last_promoted(s@),
{
    let mut v = text::chars_of(s);
    let n: usize = v.len();
    let mut i: usize = n;
    proof {
        assert(s@.take(n as int) =~= s@);
        assert(last_promoted(s@) + s@.skip(n as int) =~= last_promoted(s@));
    }
    while i > 0 && v[i - 1] != stress::SECONDARY
        invariant
            i <= n,
            n == v@.len(),
            v@ == s@,
            last_promoted(s@) == last_promoted(s@.take(i as int)) + s@.skip(i as int),
        decreases i,
    {
        i = i - 1;
        proof {
            let longer = s@.take(i + 1);
            assert(longer.drop_last() =~= s@.take(i as int));
            assert(last_promoted(longer) + s@.skip(i + 1) =~= last_promoted(s@.take(i as int))
                + s@.skip(i as int));
        }
    }
    if i > 0 {
        v.set(i - 1, stress::PRIMARY);
        proof {
            let longer = s@.take(i as int);
            assert(longer.drop_last().push(stress::PRIMARY) + s@.skip(i as int) =~= v@);
        }
    } else {
        proof {
            assert(last_promoted(s@.take(0)) + s@.skip(0) =~= s@);
        }
    }
    assert(v@.subrange(0, n as int) =~= v@);
    text::string_of(&v, 0, n)
}

} // verus!
