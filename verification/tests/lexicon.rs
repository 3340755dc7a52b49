//! Dictionaries, special words and stems.

use misaki_rs::language::{Dictionary, Language};
use misaki_rs::lexicon::{
    capitalize, get_add_symbols, get_symbols, word_table, Lexicon, PhonemeEntry, TokenContext,
};
use misaki_rs::stress::Stress;
use misaki_rs::words::{alphabetic, lexicon_chars, short_pieces};

fn entries(pairs: &[(&str, &str)]) -> Vec<(String, PhonemeEntry)> {
    pairs
        .iter()
        .map(|(word, phonemes)| (word.to_string(), PhonemeEntry::Simple(phonemes.to_string())))
        .collect()
}

fn lexicon(golds: &[(&str, &str)]) -> Lexicon {
    Lexicon {
        lang: Language::EnglishUS,
        cap_stresses: (Stress::halves(1), Stress::whole(2)),
        golds: word_table(entries(golds)),
        silvers: word_table(Vec::new()),
    }
}

fn british(golds: &[(&str, &str)]) -> Lexicon {
    Lexicon::new(Language::EnglishGB, entries(golds), Vec::new())
}

fn tagged(pairs: &[(&str, Option<&str>)]) -> PhonemeEntry {
    PhonemeEntry::tagged(
        pairs
            .iter()
            .map(|(tag, ps)| (tag.to_string(), ps.map(|p| p.to_string())))
            .collect(),
    )
}

fn phonemes(lexicon: &Lexicon, word: &str) -> Option<String> {
    lexicon.lookup(word, "NN", None, None).map(|(ps, _)| ps)
}

fn word(lexicon: &Lexicon, word: &str, tag: &str) -> Option<String> {
    lexicon.get_word(word, tag, None, None).map(|(ps, _)| ps)
}

fn rated(ps: &str, rating: i32) -> Option<(String, i32)> {
    Some((ps.to_string(), rating))
}

fn before(future_vowel: Option<bool>) -> TokenContext {
    TokenContext { future_vowel, future_to: false }
}

#[test]
fn a_lowercase_entry_answers_its_capitalized_form() {
    let lexicon = lexicon(&[("apple", "ˈæpəl")]);
    assert_eq!(phonemes(&lexicon, "Apple").as_deref(), Some("ˈæpəl"));
}

#[test]
fn a_capitalized_entry_answers_its_lowercase_form() {
    let lexicon = lexicon(&[("Paris", "pˈɛɹɪs")]);
    assert_eq!(phonemes(&lexicon, "paris").as_deref(), Some("pˈɛɹɪs"));
}

#[test]
fn each_casing_keeps_its_own_entry_when_both_exist() {
    let lexicon = lexicon(&[("polish", "pˈɑlɪʃ"), ("Polish", "pˈoʊlɪʃ")]);
    assert_eq!(phonemes(&lexicon, "Polish").as_deref(), Some("pˈoʊlɪʃ"));
    assert_eq!(phonemes(&lexicon, "polish").as_deref(), Some("pˈɑlɪʃ"));
}

#[test]
fn a_single_letter_answers_only_itself() {
    let lexicon = lexicon(&[("a", "ɐ")]);
    assert!(lexicon.in_gold("a"));
    assert!(!lexicon.in_gold("A"));
}

#[test]
fn a_proper_noun_is_known_from_its_lowercase_entry() {
    let lexicon = lexicon(&[("toml", "tˈɑːməl")]);
    let (ps, _) = lexicon
        .get_word("Toml", "NNP", None, None)
        .expect("a known word");
    assert_eq!(ps, "tˈɑːməl");
}

#[test]
fn the_table_holds_the_file_entries_and_nothing_more() {
    let golds = [("apple", "ˈæpəl"), ("Paris", "pˈɛɹɪs"), ("a", "ɐ")];
    let silvers = [("toml", "tˈɑːməl"), ("Toml", "tˈɑːməl")];
    let lexicon = Lexicon::new(Language::EnglishUS, entries(&golds), entries(&silvers));
    assert_eq!(lexicon.golds.len(), golds.len());
    assert_eq!(lexicon.silvers.len(), silvers.len());
}

#[test]
fn of_two_entries_the_later_one_counts() {
    let lexicon = lexicon(&[("read", "ɹˈid"), ("read", "ɹˈɛd")]);
    assert_eq!(lexicon.golds.len(), 1);
    assert_eq!(phonemes(&lexicon, "read").as_deref(), Some("ɹˈɛd"));
}

#[test]
fn a_new_lexicon_has_its_dialect() {
    let us = Lexicon::new(Language::EnglishUS, Vec::new(), Vec::new());
    assert_eq!(us.lang, Language::EnglishUS);
    assert_eq!(us.cap_stresses, (Stress::halves(1), Stress::whole(2)));
    assert_eq!(
        Language::EnglishUS.dictionaries(),
        (Dictionary::UsGold, Dictionary::UsSilver)
    );
    assert_eq!(
        Language::EnglishGB.dictionaries(),
        (Dictionary::GbGold, Dictionary::GbSilver)
    );
}

#[test]
fn only_two_casings_answer_for_each_other() {
    assert_eq!(Lexicon::case_variant("paris").as_deref(), Some("Paris"));
    assert_eq!(Lexicon::case_variant("Paris").as_deref(), Some("paris"));
    assert_eq!(Lexicon::case_variant("PARIS"), None);
    assert_eq!(Lexicon::case_variant("pAris"), None);
    assert_eq!(Lexicon::case_variant("a"), None);
    assert_eq!(Lexicon::case_variant(""), None);
    assert_eq!(Lexicon::case_variant("12"), None);
    assert_eq!(Lexicon::case_variant("éa").as_deref(), Some("Éa"));
    assert_eq!(Lexicon::case_variant("Éa").as_deref(), Some("éa"));
    assert_eq!(Lexicon::case_variant("ßa").as_deref(), Some("SSa"));
    assert_eq!(capitalize("über"), "Über");
    assert_eq!(capitalize(""), "");
}

#[test]
fn an_entry_is_found_under_either_casing() {
    let table = word_table(entries(&[("apple", "ˈæpəl")]));
    assert!(Lexicon::entry(&table, "apple").is_some());
    assert!(Lexicon::entry(&table, "Apple").is_some());
    assert!(Lexicon::entry(&table, "APPLE").is_none());
    assert!(Lexicon::entry(&table, "pear").is_none());
}

#[test]
fn symbols_have_names() {
    let address = get_add_symbols();
    assert_eq!(address.len(), 2);
    assert_eq!(address.get("."), Some(&"dot"));
    assert_eq!(address.get("/"), Some(&"slash"));
    let symbols = get_symbols();
    assert_eq!(symbols.len(), 4);
    assert_eq!(symbols.get("%"), Some(&"percent"));
    assert_eq!(symbols.get("&"), Some(&"and"));
    assert_eq!(symbols.get("+"), Some(&"plus"));
    assert_eq!(symbols.get("@"), Some(&"at"));
}

#[test]
fn tags_have_parents() {
    for (tag, parent) in [
        ("VB", "VERB"),
        ("VBD", "VERB"),
        ("NN", "NOUN"),
        ("NNPS", "NOUN"),
        ("RB", "ADV"),
        ("ADVX", "ADV"),
        ("JJ", "ADJ"),
        ("ADJ", "ADJ"),
        ("DT", "DT"),
        ("", ""),
    ] {
        assert_eq!(Lexicon::get_parent_tag(tag), parent);
    }
}

#[test]
fn a_tagged_entry_goes_by_tag_then_parent_then_default() {
    let lex = lexicon(&[]);
    let entry = tagged(&[
        ("VBD", Some("past")),
        ("VERB", Some("verb")),
        ("NOUN", None),
        ("DEFAULT", Some("other")),
    ]);
    assert_eq!(lex.resolve_phonemes(&entry, "VBD", None).as_deref(), Some("past"));
    assert_eq!(lex.resolve_phonemes(&entry, "VB", None).as_deref(), Some("verb"));
    assert_eq!(lex.resolve_phonemes(&entry, "NN", None).as_deref(), Some("other"));
    assert_eq!(lex.resolve_phonemes(&entry, "DT", None).as_deref(), Some("other"));
    let bare = tagged(&[("VERB", Some("verb")), ("DEFAULT", None)]);
    assert_eq!(lex.resolve_phonemes(&bare, "NN", None), None);
    let simple = PhonemeEntry::Simple("one".to_string());
    assert_eq!(lex.resolve_phonemes(&simple, "NN", None).as_deref(), Some("one"));
}

#[test]
fn an_unknown_next_sound_has_its_own_pronunciation() {
    let lex = lexicon(&[]);
    let entry = tagged(&[("None", Some("pause")), ("NN", Some("noun"))]);
    let unsure = before(None);
    let sure = before(Some(true));
    assert_eq!(lex.resolve_phonemes(&entry, "NN", Some(&unsure)).as_deref(), Some("pause"));
    assert_eq!(lex.resolve_phonemes(&entry, "NN", Some(&sure)).as_deref(), Some("noun"));
    assert_eq!(lex.resolve_phonemes(&entry, "NN", None).as_deref(), Some("noun"));
}

#[test]
fn certain_entries_are_rated_above_likely_ones() {
    let lex = Lexicon::new(
        Language::EnglishUS,
        entries(&[("sure", "ʃˈʊɹ")]),
        entries(&[("sure", "no"), ("maybe", "mˈAbi")]),
    );
    assert_eq!(lex.lookup("sure", "NN", None, None), rated("ʃˈʊɹ", 4));
    assert_eq!(lex.lookup("maybe", "NN", None, None), rated("mˈAbi", 3));
    assert_eq!(lex.lookup("never", "NN", None, None), None);
    assert_eq!(lex.lookup("sure", "NN", Some(Stress::whole(-2)), None), rated("ʃʊɹ", 4));
    assert!(lex.has("maybe"));
    assert!(!lex.in_gold("maybe"));
    assert!(!lex.has("never"));
}

#[test]
fn capitals_are_looked_up_in_lower_case() {
    let lex = Lexicon::new(
        Language::EnglishUS,
        entries(&[("word", "wˈɜɹd"), ("weak", "wik"), ("U", "jˈu"), ("S", "ˈɛs"), ("A", "ˈA")]),
        entries(&[("usa", "likely")]),
    );
    assert_eq!(lex.lookup("WORD", "NN", None, None), rated("wˈɜɹd", 4));
    assert_eq!(lex.lookup("WORD", "NNP", None, None), rated("wˈɜɹd", 4));
    // A proper noun in capitals is spelt out rather than asked of the likely entries.
    assert_eq!(lex.lookup("USA", "NN", None, None), rated("likely", 3));
    assert_eq!(lex.lookup("USA", "NNP", None, None), rated("jˌuˌɛsˈA", 3));
    // So is one whose entry has no primary stress, as far as its letters have names.
    assert_eq!(lex.lookup("WEAK", "NNP", None, None), rated("wik", 4));
    assert_eq!(lex.lookup("US", "NNP", None, None), rated("jˌuˈɛs", 3));
    assert_eq!(lex.lookup("UX", "NNP", None, None), None);
}

#[test]
fn letters_are_named_one_by_one() {
    let mut golds = entries(&[("U", "jˈu"), ("S", "ˈɛs"), ("É", "ˈe")]);
    golds.push(("T".to_string(), tagged(&[("DEFAULT", Some("tˈi"))])));
    let lex = Lexicon::new(Language::EnglishUS, golds, Vec::new());
    assert_eq!(lex.get_nnp("us"), rated("jˌuˈɛs", 3));
    assert_eq!(lex.get_nnp("U.S."), rated("jˌuˈɛs", 3));
    assert_eq!(lex.get_nnp("é"), rated("ˈe", 3));
    // A letter with a tagged entry is passed over, one without an entry ends it.
    assert_eq!(lex.get_nnp("ust"), rated("jˌuˈɛs", 3));
    assert_eq!(lex.get_nnp("t"), None);
    assert_eq!(lex.get_nnp("usx"), None);
    assert_eq!(lex.get_nnp("12"), None);
}

#[test]
fn small_words_follow_their_context() {
    let mut golds = entries(&[
        ("am", "æm"),
        ("to", "tu"),
        ("A", "ˈA"),
        ("M", "ˈɛm"),
        ("N", "ˈɛn"),
        ("versus", "vˈɜɹsəs"),
        ("dot", "dˈɑt"),
        ("slash", "slˈæʃ"),
        ("percent", "pəɹsˈɛnt"),
    ]);
    golds.push((
        "used".to_string(),
        tagged(&[("VBD", Some("jˈust")), ("DEFAULT", Some("jˈuzd"))]),
    ));
    let lex = Lexicon::new(Language::EnglishUS, golds, Vec::new());
    let vowel = before(Some(true));
    let consonant = before(Some(false));
    let to_next = TokenContext { future_vowel: Some(false), future_to: true };
    let special = |w: &str, t: &str, c: Option<&TokenContext>| {
        lex.get_special_case(w, t, None, c).map(|(ps, _)| ps)
    };
    assert_eq!(special("a", "DT", None).as_deref(), Some("ɐ"));
    assert_eq!(special("A", "NN", None).as_deref(), Some("ˈA"));
    assert_eq!(special("am", "NN", None).as_deref(), Some("ˌAˈɛm"));
    assert_eq!(special("am", "VBP", None).as_deref(), Some("æm"));
    assert_eq!(special("am", "VBP", Some(&before(None))).as_deref(), Some("æm"));
    assert_eq!(special("am", "VBP", Some(&vowel)).as_deref(), Some("ɐm"));
    assert_eq!(special("AM", "VBP", Some(&vowel)).as_deref(), Some("æm"));
    assert_eq!(
        lex.get_special_case("am", "VBP", Some(Stress::whole(1)), Some(&vowel)),
        rated("æm", 4)
    );
    assert_eq!(special("an", "DT", None).as_deref(), Some("ɐn"));
    assert_eq!(special("AN", "NN", None).as_deref(), Some("ˌAˈɛn"));
    assert_eq!(special("I", "PRP", None).as_deref(), Some("ˌI"));
    assert_eq!(special("I", "NN", None), None);
    assert_eq!(special("by", "RB", None).as_deref(), Some("bˈI"));
    assert_eq!(special("by", "IN", None), None);
    assert_eq!(special("to", "TO", None).as_deref(), Some("tu"));
    assert_eq!(special("to", "TO", Some(&vowel)).as_deref(), Some("tʊ"));
    assert_eq!(special("To", "TO", Some(&consonant)).as_deref(), Some("tə"));
    assert_eq!(special("TO", "NN", Some(&consonant)), None);
    assert_eq!(special("in", "IN", Some(&vowel)).as_deref(), Some("ɪn"));
    assert_eq!(special("in", "RP", Some(&vowel)).as_deref(), Some("ˈɪn"));
    assert_eq!(special("in", "IN", None).as_deref(), Some("ˈɪn"));
    assert_eq!(special("IN", "NNP", None), None);
    assert_eq!(special("the", "DT", Some(&vowel)).as_deref(), Some("ði"));
    assert_eq!(special("The", "DT", Some(&consonant)).as_deref(), Some("ðə"));
    assert_eq!(special("THE", "NN", None), None);
    assert_eq!(special("vs", "IN", None).as_deref(), Some("vˈɜɹsəs"));
    assert_eq!(special("VS", "IN", None).as_deref(), Some("vˈɜɹsəs"));
    assert_eq!(special("vs", "NN", None), None);
    assert_eq!(special("used", "VBD", Some(&to_next)).as_deref(), Some("jˈust"));
    assert_eq!(special("used", "VBD", Some(&vowel)).as_deref(), Some("jˈuzd"));
    assert_eq!(special("Used", "NN", Some(&to_next)).as_deref(), Some("jˈuzd"));
    assert_eq!(special(".", "ADD", None).as_deref(), Some("dˌɑt"));
    assert_eq!(special("/", "ADD", None).as_deref(), Some("slˌæʃ"));
    assert_eq!(special("/", "NN", None), None);
    assert_eq!(special("%", "NN", None).as_deref(), Some("pəɹsˈɛnt"));
    assert_eq!(special("A.M.", "NN", None).as_deref(), Some("ˌAˈɛm"));
    assert_eq!(special("etc.", "NN", None), None);
    assert_eq!(special("word", "NN", None), None);
}

#[test]
fn known_words_need_no_stem() {
    let lex = lexicon(&[("word", "wˈɜɹd"), ("new-age", "x")]);
    assert!(lex.is_known("word", "NN"));
    assert!(lex.is_known("Word", "NN"));
    assert!(lex.is_known("WORD", "NN"));
    assert!(lex.is_known("new-age", "NN"));
    assert!(lex.is_known("%", "NN"));
    assert!(lex.is_known("x", "NN"));
    assert!(lex.is_known("iPHONE", "NN"));
    assert!(!lex.is_known("iPhone", "NN"));
    assert!(!lex.is_known("words", "NN"));
    assert!(!lex.is_known("é", "NN"));
    assert!(!lex.is_known("5", "NN"));
    assert!(!lex.is_known("", "NN"));
    assert!(alphabetic("aé"));
    assert!(!alphabetic("a1"));
    assert!(lexicon_chars("it's-["));
    assert!(!lexicon_chars("a_b"));
    assert!(short_pieces("U.S.A."));
    assert!(!short_pieces("etc."));
}

#[test]
fn an_s_follows_the_last_sound() {
    let us = lexicon(&[]);
    let gb = british(&[]);
    assert_eq!(us.append_s("kˈæt"), "kˈæts");
    assert_eq!(us.append_s("bˈʌs"), "bˈʌsᵻz");
    assert_eq!(gb.append_s("bˈʌs"), "bˈʌsɪz");
    assert_eq!(us.append_s("dˈɔɡ"), "dˈɔɡz");
    assert_eq!(us.append_s(""), "");
}

#[test]
fn an_ed_follows_the_last_sound() {
    let us = lexicon(&[]);
    let gb = british(&[]);
    assert_eq!(us.append_ed("wˈɔk"), "wˈɔkt");
    assert_eq!(us.append_ed("nˈid"), "nˈidᵻd");
    assert_eq!(gb.append_ed("nˈid"), "nˈidɪd");
    assert_eq!(us.append_ed("plˈA"), "plˈAd");
    assert_eq!(us.append_ed("wˈAt"), "wˈAɾᵻd");
    assert_eq!(gb.append_ed("wˈAt"), "wˈAtɪd");
    assert_eq!(us.append_ed("tˈɛst"), "tˈɛstᵻd");
    assert_eq!(us.append_ed("t"), "tɪd");
    assert_eq!(us.append_ed(""), "");
}

#[test]
fn an_ing_follows_the_last_sound() {
    let us = lexicon(&[]);
    let gb = british(&[]);
    assert_eq!(us.append_ing("plˈA").as_deref(), Some("plˈAɪŋ"));
    assert_eq!(us.append_ing("wˈAt").as_deref(), Some("wˈAɾɪŋ"));
    assert_eq!(gb.append_ing("wˈAt").as_deref(), Some("wˈAtɪŋ"));
    assert_eq!(us.append_ing("tˈɛst").as_deref(), Some("tˈɛstɪŋ"));
    assert_eq!(gb.append_ing("bɛtə"), None);
    assert_eq!(gb.append_ing("siː"), None);
    assert_eq!(us.append_ing("bɛtə").as_deref(), Some("bɛtəɪŋ"));
    assert_eq!(us.append_ing(""), None);
}

#[test]
fn plurals_are_read_from_their_stem() {
    let lex = lexicon(&[("cat", "kˈæt"), ("box", "bˈɑks"), ("party", "pˈɑɹTi"), ("bus", "bˈʌs")]);
    assert_eq!(lex.stem_s("cats", "NNS", None, None), rated("kˈæts", 4));
    assert_eq!(lex.stem_s("CATS", "NNS", None, None), rated("kˈæts", 4));
    assert_eq!(lex.stem_s("cat's", "NN", None, None), rated("kˈæts", 4));
    assert_eq!(lex.stem_s("boxes", "NNS", None, None), rated("bˈɑksᵻz", 4));
    assert_eq!(lex.stem_s("parties", "NNS", None, None), rated("pˈɑɹTiz", 4));
    assert_eq!(lex.stem_s("buss", "NNS", None, None), None);
    assert_eq!(lex.stem_s("dogs", "NNS", None, None), None);
    assert_eq!(lex.stem_s("as", "NN", None, None), None);
    assert_eq!(lex.find_stem_s("parties", "NNS").as_deref(), Some("party"));
}

#[test]
fn past_tenses_are_read_from_their_stem() {
    let lex = lexicon(&[("walk", "wˈɔk"), ("wave", "wˈAv"), ("add", "ˈæd")]);
    assert_eq!(lex.stem_ed("walked", "VBD", None, None), rated("wˈɔkt", 4));
    assert_eq!(lex.stem_ed("waved", "VBD", None, None), rated("wˈAvd", 4));
    assert_eq!(lex.stem_ed("added", "VBD", None, None), rated("ˈædᵻd", 4));
    assert_eq!(lex.stem_ed("walkeed", "VBD", None, None), None);
    assert_eq!(lex.stem_ed("addd", "VBD", None, None), None);
    assert_eq!(lex.stem_ed("red", "JJ", None, None), None);
    assert_eq!(lex.find_stem_ed("walked", "VBD").as_deref(), Some("walk"));
}

#[test]
fn continuous_tenses_are_read_from_their_stem() {
    let lex = lexicon(&[("play", "plˈA"), ("wave", "wˈAv"), ("run", "ɹˈʌn"), ("ball", "bˈɔl")]);
    assert_eq!(lex.stem_ing("playing", "VBG", None, None), rated("plˈAɪŋ", 4));
    assert_eq!(lex.stem_ing("waving", "VBG", None, None), rated("wˈAvɪŋ", 4));
    assert_eq!(lex.stem_ing("ring", "NN", None, None), None);
    assert_eq!(lex.find_stem_ing("waving", "VBG").as_deref(), Some("wave"));
}

#[test]
fn a_doubled_consonant_before_ing_is_undone() {
    let lex = lexicon(&[
        ("run", "ɹˈʌn"),
        ("picnic", "pˈɪknˌɪk"),
        ("ball", "bˈɔl"),
        ("hop", "hˈɑp"),
        ("sit", "sˈɪt"),
        ("ja", "ʤˈɑ"),
    ]);
    assert_eq!(lex.stem_ing("running", "VBG", None, None), rated("ɹˈʌnɪŋ", 4));
    assert_eq!(lex.stem_ing("RUNNING", "VBG", None, None), rated("ɹˈʌnɪŋ", 4));
    assert_eq!(lex.stem_ing("sitting", "VBG", None, None), rated("sˈɪɾɪŋ", 4));
    assert_eq!(lex.stem_ing("picnicking", "VBG", None, None), rated("pˈɪknˌɪkɪŋ", 4));
    assert_eq!(
        lex.stem_ing("running", "VBG", Some(Stress::whole(-2)), None),
        rated("ɹʌnɪŋ", 4)
    );
    assert_eq!(lex.find_stem_ing("hopping", "VBG").as_deref(), Some("hop"));
    assert_eq!(lex.find_stem_ing("balling", "VBG").as_deref(), Some("ball"));
    // Only these consonants are doubled, and the stem has to be known.
    assert_eq!(lex.stem_ing("jajjing", "VBG", None, None), None);
    assert_eq!(lex.stem_ing("jaaing", "VBG", None, None), None);
    assert_eq!(lex.stem_ing("runxing", "VBG", None, None), None);
    assert_eq!(lex.stem_ing("ballxing", "VBG", None, None), None);
    assert_eq!(lex.stem_ing("gunning", "VBG", None, None), None);
    // A bare doubled consonant is no word.
    assert_eq!(lex.stem_ing("nning", "VBG", None, None), None);
}

#[test]
fn endings_behind_other_letters_are_no_stems() {
    let lex = lexicon(&[("caf", "kˈæf"), ("caff", "kˈæf")]);
    assert_eq!(lex.stem_ing("caféing", "VBG", None, None), None);
    assert_eq!(lex.stem_ing("cafféing", "VBG", None, None), None);
    assert_eq!(lex.stem_s("ßs", "NN", None, None), None);
    assert_eq!(lex.get_word("caféing", "VBG", None, None), None);
}

#[test]
fn a_word_is_special_then_known_then_stemmed() {
    let lex = Lexicon::new(
        Language::EnglishUS,
        entries(&[
            ("boss", "bˈɔs"),
            ("boss's", "bˈɔsᵻz"),
            ("play", "plˈA"),
            ("walk", "wˈɔk"),
            ("o'", "ə"),
            ("weak", "wik"),
        ]),
        Vec::new(),
    );
    assert_eq!(word(&lex, "the", "DT").as_deref(), Some("ðə"));
    assert_eq!(word(&lex, "boss", "NN").as_deref(), Some("bˈɔs"));
    assert_eq!(word(&lex, "Boss", "NN").as_deref(), Some("bˈɔs"));
    assert_eq!(word(&lex, "o'", "NN").as_deref(), Some("ə"));
    assert_eq!(word(&lex, "boss'", "NN").as_deref(), Some("bˈɔs"));
    assert_eq!(word(&lex, "plays", "VBZ").as_deref(), Some("plˈAz"));
    assert_eq!(word(&lex, "walked", "VBD").as_deref(), Some("wˈɔkt"));
    assert_eq!(word(&lex, "PLAYING", "VBG").as_deref(), Some("plˈAɪŋ"));
    assert_eq!(word(&lex, "Walked", "VBD").as_deref(), Some("wˈɔkt"));
    assert_eq!(word(&lex, "unheard", "NN"), None);
    // The stem of a continuous tense has half stress where no level is asked for.
    assert_eq!(word(&lex, "weaking", "VBG").as_deref(), Some("wˌikɪŋ"));
    assert_eq!(
        lex.get_word("weaking", "VBG", Some(Stress::whole(2)), None),
        rated("wˈikɪŋ", 4)
    );
}

#[test]
fn a_possessive_plural_is_read_as_the_singular() {
    let lex = lexicon(&[("dog", "dˈɔɡ"), ("dog's", "dˈɔɡz"), ("cat", "kˈæt")]);
    assert_eq!(word(&lex, "dogs'", "NN").as_deref(), Some("dˈɔɡz"));
    // The singular possessive has to have an entry.
    assert_eq!(word(&lex, "cats'", "NN"), None);
    assert_eq!(word(&lex, "cat'", "NN").as_deref(), Some("kˈæt"));
}

#[test]
fn a_level_counts_for_inflected_words_too() {
    let lex = lexicon(&[("walk", "wˈɔk")]);
    let low = Some(Stress::whole(-2));
    assert_eq!(lex.get_word("walk", "VB", low, None), rated("wɔk", 4));
    assert_eq!(lex.get_word("walks", "VBZ", low, None), rated("wɔks", 4));
    assert_eq!(lex.get_word("walked", "VBD", low, None), rated("wɔkt", 4));
    assert_eq!(lex.get_word("walking", "VBG", low, None), rated("wɔkɪŋ", 4));
    assert_eq!(lex.get_word("walking", "VBG", None, None), rated("wˈɔkɪŋ", 4));
}
