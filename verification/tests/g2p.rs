//! Reading whole texts.

use misaki_rs::fallback::{Fallback, FallbackError};
use misaki_rs::g2p::{G2PError, Resources, Services, G2P};
use misaki_rs::language::Language;
use misaki_rs::languages::LanguageRules;
use misaki_rs::lexicon::{Lexicon, PhonemeEntry};
use misaki_rs::links::{parse_link_feature, LinkFeature};
use misaki_rs::stress::Stress;
use misaki_rs::tagger::Tagger;

/// Tags a few words and calls everything else a noun.
struct SmallTagger;

impl Tagger for SmallTagger {
    fn tag(&self, words: &Vec<String>) -> Vec<String> {
        words
            .iter()
            .map(|w| {
                match w.as_str() {
                    "the" | "The" | "a" => "DT",
                    "I" => "PRP",
                    "to" => "TO",
                    "object" if words.len() > 1 && words[0] == "I" => "VBP",
                    _ => "NN",
                }
                .to_string()
            })
            .collect()
    }
}

/// A tagger that gives fewer tags than there are words.
struct LazyTagger;

impl Tagger for LazyTagger {
    fn tag(&self, _words: &Vec<String>) -> Vec<String> {
        vec!["VB".to_string()]
    }
}

struct NoRules;

impl LanguageRules for NoRules {
    fn apply_rules(&self, _word: &str, _tag: &str, _lexicon: &Lexicon) -> Option<String> {
        None
    }
}

struct OneRule;

impl LanguageRules for OneRule {
    fn apply_rules(&self, word: &str, _tag: &str, lexicon: &Lexicon) -> Option<String> {
        if word == "zzz" && lexicon.in_gold("hello") {
            Some("zˈi".to_string())
        } else {
            None
        }
    }
}

struct TestFallback;

impl Fallback for TestFallback {
    fn phonemize(&self, word: &str) -> Result<String, FallbackError> {
        assert_eq!(word, "qzxwv");
        Ok("test-phonemes".to_string())
    }
}

struct EchoFallback;

impl Fallback for EchoFallback {
    fn phonemize(&self, word: &str) -> Result<String, FallbackError> {
        Ok(format!("<{}>", word))
    }
}

struct WordFallback;

impl Fallback for WordFallback {
    fn phonemize(&self, word: &str) -> Result<String, FallbackError> {
        assert_eq!(word, "eBook");
        Ok("ˈi bˈʊk.".to_string())
    }
}

struct BrokenFallback;

impl Fallback for BrokenFallback {
    fn phonemize(&self, word: &str) -> Result<String, FallbackError> {
        Err(FallbackError { message: format!("no voice for {}", word) })
    }
}

const WORDS: &[(&str, &str)] = &[
    ("hello", "həlˈO"),
    ("world", "wˈɜɹld"),
    ("quick", "kwˈɪk"),
    ("brown", "bɹˈWn"),
    ("fox", "fˈɑks"),
    ("test", "tˈɛst"),
    ("testing", "tˈɛstɪŋ"),
    ("phonemization", "fˌOnəməzˈAʃən"),
    ("restriction", "ɹɪstɹˈɪkʃən"),
    ("play", "plˈA"),
    ("word", "wˈɜɹd"),
    ("have", "hæv"),
    ("apple", "ˈæpᵊl"),
    ("book", "bˈʊk"),
    ("orange", "ˈɔɹɪnʤ"),
    ("year", "jˈɪɹ"),
    ("chapter", "ʧˈæptəɹ"),
    ("percent", "pəɹsˈɛnt"),
    ("and", "ænd"),
    ("to", "tu"),
    ("am", "æm"),
    ("minus", "mˈInəs"),
    ("one", "wˈʌn"),
    ("two", "tˈu"),
    ("three", "θɹˈi"),
    ("five", "fˈIv"),
    ("hundred", "hˈʌndɹəd"),
    ("twenty", "twˈɛnti"),
    ("forty", "fˈɔɹTi"),
    ("e", "ˈi"),
    ("o", "ˈO"),
    ("k", "kˈA"),
    ("A", "ˈA"),
    ("B", "bˈi"),
    ("C", "sˈi"),
    ("F", "ˈɛf"),
    ("I", "ˈI"),
    ("S", "ˈɛs"),
    ("U", "jˈu"),
    ("I'll", "ˈIl"),
    ("I've", "ˈIv"),
    ("it's", "ɪts"),
    ("he's", "hiz"),
    ("she's", "ʃiz"),
    ("we're", "wɪɹ"),
    ("they're", "ðɛɹ"),
    ("isn't", "ˈɪzᵊnt"),
    ("aren't", "ˈɑɹᵊnt"),
    ("wasn't", "wˈʌzᵊnt"),
    ("weren't", "wˈɜɹᵊnt"),
    ("don't", "dˈOnt"),
    ("doesn't", "dˈʌzᵊnt"),
    ("didn't", "dˈɪdᵊnt"),
    ("can't", "kˈænt"),
    ("couldn't", "kˈʊdᵊnt"),
    ("shouldn't", "ʃˈʊdᵊnt"),
    ("wouldn't", "wˈʊdᵊnt"),
    ("won't", "wˈOnt"),
    ("hasn't", "hˈæzᵊnt"),
    ("haven't", "hˈævᵊnt"),
    ("hadn't", "hˈædᵊnt"),
    ("let's", "lˈɛts"),
    ("that's", "ðˈæts"),
    ("what's", "wˈʌts"),
    ("who's", "hˈuz"),
    ("here's", "hˈɪɹz"),
    ("there's", "ðɛɹz"),
    ("where's", "wˈɛɹz"),
    ("how's", "hˈWz"),
];

fn entries(pairs: &[(&str, &str)]) -> Vec<(String, PhonemeEntry)> {
    pairs
        .iter()
        .map(|(w, p)| (w.to_string(), PhonemeEntry::Simple(p.to_string())))
        .collect()
}

fn golds() -> Vec<(String, PhonemeEntry)> {
    let mut all = entries(WORDS);
    all.push((
        "object".to_string(),
        PhonemeEntry::tagged(vec![
            ("DEFAULT".to_string(), Some("ˈɑbʤɛkt".to_string())),
            ("VERB".to_string(), Some("əbʤˈɛkt".to_string())),
        ]),
    ));
    all
}

fn resources() -> Resources {
    Resources {
        golds: golds(),
        silvers: entries(&[("silver", "sˈɪlvəɹ")]),
        services: Services { tagger: Box::new(SmallTagger), rules: Box::new(NoRules) },
    }
}

fn engine() -> G2P {
    G2P::new(Language::EnglishUS, resources())
}

fn engine_with(fallback: Box<dyn Fallback>) -> G2P {
    G2P::with_fallback(Language::EnglishUS, resources(), Some(fallback))
}

fn say(g2p: &G2P, text: &str) -> String {
    g2p.g2p(text).unwrap().0
}

#[test]
fn test_g2p_basic() {
    let g2p = engine();
    let (phonemes, _) = g2p.g2p("Hello, world!").unwrap();
    println!("Phonemes: {}", phonemes);
    assert!(!phonemes.contains("❓"));
}

#[test]
fn test_with_fallback_uses_injected_fallback_for_oov_word() {
    let g2p = engine_with(Box::new(TestFallback));

    let (phonemes, tokens) = g2p.g2p("qzxwv").unwrap();

    assert_eq!(phonemes.trim(), "test-phonemes");
    assert_eq!(tokens[0].phonemes.as_deref(), Some("test-phonemes"));
}

#[test]
fn test_preprocess_links_strips_markup() {
    let g2p = engine();
    let (stripped, markers) = g2p.preprocess_links("say [hello](+2) please");
    assert_eq!(stripped, "say hello please");
    assert_eq!(markers.len(), 1);
    let m = &markers[0];
    assert_eq!(&stripped[m.byte_start..m.byte_end], "hello");
    match m.feature {
        LinkFeature::Stress(n) => assert_eq!(n, Stress::whole(2)),
        _ => panic!("expected Stress, got {:?}", m.feature),
    }
}

#[test]
fn test_preprocess_links_parses_features() {
    assert!(matches!(parse_link_feature("+2"), Some(LinkFeature::Stress(n)) if n == Stress::whole(2)));
    assert!(matches!(parse_link_feature("-1"), Some(LinkFeature::Stress(n)) if n == Stress::whole(-1)));
    assert!(matches!(parse_link_feature("2"), Some(LinkFeature::Stress(n)) if n == Stress::whole(2)));
    assert!(matches!(parse_link_feature("0.5"), Some(LinkFeature::Stress(n)) if n == Stress::halves(1)));
    assert!(matches!(parse_link_feature("+0.5"), Some(LinkFeature::Stress(n)) if n == Stress::halves(1)));
    assert!(matches!(parse_link_feature("-0.5"), Some(LinkFeature::Stress(n)) if n == Stress::halves(-1)));
    assert!(matches!(parse_link_feature("/həˈloʊ/"), Some(LinkFeature::Phonemes(ref p)) if p == "həˈloʊ"));
    assert!(matches!(parse_link_feature("#cardinal#"), Some(LinkFeature::NumFlags(ref f)) if f == "cardinal"));
    assert!(parse_link_feature("").is_none());
    assert!(parse_link_feature("=").is_none());
    assert!(parse_link_feature("doctor").is_none());
    assert!(parse_link_feature("2.5").is_none());
    assert!(parse_link_feature("/foo").is_none());
    assert!(parse_link_feature("foo/").is_none());
}

#[test]
fn test_link_stress_promotes() {
    let g2p = engine();
    let (boosted, _) = g2p.g2p("[hello](+2)").unwrap();
    assert!(!boosted.contains("❓"), "boosted output: '{}'", boosted);
    assert!(
        boosted.contains('ˈ'),
        "boosted output missing primary stress: '{}'",
        boosted
    );
}

#[test]
fn test_link_stress_strips() {
    let g2p = engine();
    let (stripped, _) = g2p.g2p("[hello](-2)").unwrap();
    assert!(!stripped.contains("❓"));
    assert!(
        !stripped.contains('ˈ') && !stripped.contains('ˌ'),
        "expected no stress marks, got: '{}'",
        stripped
    );
}

#[test]
fn test_link_phoneme_override() {
    let g2p = engine();
    let (out, _) = g2p.g2p("[xyzzy](/həˈloʊ/)").unwrap();
    assert!(out.contains("həˈloʊ"), "phoneme override missing: '{}'", out);
    assert!(!out.contains("❓"), "got unknown marker: '{}'", out);
}

#[test]
fn test_link_num_flags_sets_field() {
    let g2p = engine();
    let (_, tokens) = g2p.g2p("[5](#cardinal#)").unwrap();
    let tagged: Vec<_> = tokens
        .iter()
        .filter(|t| !t.underscore().num_flags.is_empty())
        .collect();
    assert_eq!(tagged.len(), 1, "expected one token with num_flags set");
    assert_eq!(tagged[0].underscore().num_flags, "cardinal");
}

#[test]
fn test_link_unknown_feature_is_dropped() {
    let g2p = engine();
    let (stripped, markers) = g2p.preprocess_links("say [hello](=) please");
    assert_eq!(stripped, "say hello please");
    assert!(markers.is_empty(), "unknown feature should yield no marker");
}

#[test]
fn test_ebook_with_espeak() {
    let g2p = engine_with(Box::new(WordFallback));
    let (phonemes, _) = g2p.g2p("eBook").unwrap();
    assert!(
        !phonemes.contains("❓"),
        "with espeak: 'eBook' should be phonemized by fallback, got: {}",
        phonemes
    );
    assert!(
        !phonemes.contains("ˈɛl"),
        "with espeak: 'eBook' should not spell out letters, got: {}",
        phonemes
    );
    assert_eq!(phonemes, "ˈi bˈʊk. ");
}

#[test]
fn test_ebook_without_espeak() {
    let g2p = engine();
    let (phonemes, _) = g2p.g2p("eBook").unwrap();
    assert!(
        phonemes.contains("❓") || phonemes.contains("ˈi") || phonemes.contains("b"),
        "without espeak: 'eBook' should show unknown or spelled form, got: {}",
        phonemes
    );
    assert_eq!(phonemes, "ˈi  bˈi  ˈO  ˈO  kˈA  ");
}

#[test]
fn test_english_abbreviations() {
    let g2p = engine();
    let cases = vec![
        "I'll", "I've", "it's", "he's", "she's", "we're", "they're", "isn't", "aren't", "wasn't",
        "weren't", "don't", "doesn't", "didn't", "can't", "couldn't", "shouldn't", "wouldn't",
        "won't", "hasn't", "haven't", "hadn't", "let's", "that's", "what's", "who's", "here's",
        "there's", "where's", "how's",
    ];
    for text in cases {
        let (p, _) = g2p.g2p(text).unwrap();
        println!("'{}' -> '{}'", text, p);
        assert!(!p.contains("❓"), "Failed for '{}'", text);
    }
}

#[test]
fn test_casing_and_special_chars() {
    let g2p = engine();

    let (playing, _) = g2p.g2p("PLAYING").unwrap();
    assert!(!playing.contains("❓"), "PLAYING should be resolved, got: {}", playing);

    let (ive, _) = g2p.g2p("I've").unwrap();
    assert!(!ive.contains("❓"), "I've should be resolved, got: {}", ive);

    let (dash, _) = g2p.g2p("word - word — word").unwrap();
    assert!(
        !dash.contains("❓"),
        "Dashes should be handled gracefully, got: {}",
        dash
    );
}

#[test]
fn test_kokoros_basic() {
    let g2p = engine();
    let cases = vec![
        "hello",
        "world",
        "the quick brown fox",
        "testing phonemization",
        "Hello, world!",
        "123",
        "restriction",
        "restrictions",
        "",
    ];
    for text in cases {
        let (p, _) = g2p.g2p(text).unwrap();
        println!("'{}' -> '{}'", text, p);
        if !text.is_empty() {
            assert!(!p.is_empty(), "Failed for '{}'", text);
        }
    }
}

#[test]
fn test_kokoros_numbers() {
    let g2p = engine();
    let cases = vec![
        "CHAPTER XIV",
        "CHAPTER 14",
        "CHAPTER 123",
        "I have 5 apples and 42 oranges",
        "The year 2024",
        "1234567890",
        "CHAPTER I",
        "CHAPTER II",
        "CHAPTER III",
        "CHAPTER IV",
        "CHAPTER V",
        "CHAPTER X",
        "CHAPTER XX",
        "CHAPTER XXX",
        "In 2024, CHAPTER XIV had 42 pages.",
        "The price is $123.45",
        "Temperature: -5°C",
        "Score: 100%",
        "Version 2.0",
        "3.14159",
    ];
    for text in cases {
        let (p, _) = g2p.g2p(text).unwrap();
        println!("'{}' -> '{}'", text, p);
        assert!(!p.is_empty(), "Failed for '{}'", text);
    }
}

#[test]
fn test_kokoros_utf8_and_special() {
    let g2p = engine();
    let cases = vec![
        "café",
        "naïve",
        "résumé",
        "Zürich",
        "São Paulo",
        "Müller",
        "北京",
        "こんにちは",
        "Здравствуй",
        "مرحبا",
        "🎉🎊🎈",
        "\x00\x01\x02",
        "Hello 世界",
        "123中文",
        "English123中文",
        "hello\u{200B}world",
        "hello\u{200C}world",
        "hello\u{200D}world",
        "caf\u{00E9}",
        "na\u{00EF}ve",
    ];
    for text in cases {
        let (p, _) = g2p.g2p(text).unwrap();
        println!("'{}' -> '{}'", text, p);
    }
}

#[test]
fn test_kokoros_punctuation() {
    let g2p = engine();
    let cases = vec![
        "Hello—world",
        "Hello–world",
        "Hello…world",
        "\"quoted text\"",
        "'single quotes'",
        "«French quotes»",
        "„German quotes„",
        "「Japanese quotes」",
        "Dr. Smith",
        "Mr. Jones",
        "Mrs. Brown",
        "Ms. Davis",
        "etc.",
        "U.S.A.",
        "Ph.D.",
        "A.I.",
        "NASA",
        "FBI",
        "   ",
        "\n\n",
        "\t\t",
        "\r\n",
    ];
    for text in cases {
        let (p, _) = g2p.g2p(text).unwrap();
        println!("'{}' -> '{}'", text, p);
    }
}

#[test]
fn test_kokoros_punctuation_preserved() {
    let g2p = engine();

    let (phonemes, _) = g2p.g2p("Hello, world.").unwrap();
    assert!(phonemes.contains(','), "comma dropped: {phonemes:?}");
    assert!(phonemes.contains('.'), "period dropped: {phonemes:?}");

    for c in [';', ':', '!', '?'] {
        let input = format!("test {c}");
        let (out, _) = g2p.g2p(&input).unwrap();
        assert!(out.contains(c), "{c:?} dropped: {out:?}");
    }

    let (out, _) = g2p.g2p("hello (world)").unwrap();
    assert!(!out.contains('('), "( unexpectedly preserved: {out:?}");
    assert!(!out.contains(')'), ") unexpectedly preserved: {out:?}");
}

#[test]
fn test_kokoros_long_text() {
    let g2p = engine();
    let long_text = "a".repeat(1000);
    let (p, _) = g2p.g2p(&long_text).unwrap();
    assert!(!p.is_empty());
}

#[test]
fn a_sentence_is_read_word_by_word() {
    assert_eq!(say(&engine(), "Hello, world!"), "həlˈO , wˈɜɹld ! ");
    assert_eq!(say(&engine(), "the quick brown fox"), "ðə kwˈɪk bɹˈWn fˈɑks ");
}

#[test]
fn the_article_listens_to_the_next_word() {
    assert_eq!(say(&engine(), "the apple"), "ði ˈæpᵊl ");
    assert_eq!(say(&engine(), "the book"), "ðə bˈʊk ");
    // A number starts with no letter: its first sound decides.
    assert_eq!(say(&engine(), "the 1"), "ðə wˈʌn  ");
    assert_eq!(say(&engine(), "the"), "ðə ");
}

#[test]
fn the_part_of_speech_decides() {
    assert_eq!(say(&engine(), "the object"), "ði ˈɑbʤɛkt ");
    assert_eq!(say(&engine(), "I object"), "ˌI əbʤˈɛkt ");
}

#[test]
fn tags_may_run_out() {
    let g2p = G2P::new(
        Language::EnglishUS,
        Resources {
            golds: golds(),
            silvers: Vec::new(),
            services: Services { tagger: Box::new(LazyTagger), rules: Box::new(NoRules) },
        },
    );
    let (out, tokens) = g2p.g2p("object object").unwrap();
    assert_eq!(out, "əbʤˈɛkt ˈɑbʤɛkt ");
    assert_eq!(tokens[0].tag, "VB");
    assert_eq!(tokens[1].tag, "NN");
}

#[test]
fn rules_come_before_the_fallback() {
    let g2p = G2P::with_fallback(
        Language::EnglishUS,
        Resources {
            golds: golds(),
            silvers: Vec::new(),
            services: Services { tagger: Box::new(SmallTagger), rules: Box::new(OneRule) },
        },
        Some(Box::new(EchoFallback)),
    );
    assert_eq!(say(&g2p, "zzz"), "zˈi ");
    assert_eq!(say(&g2p, "zzzz"), "<zzzz> ");
    assert_eq!(say(&g2p, "hello"), "həlˈO ");
}

#[test]
fn the_fallback_decides_on_unknown_words_only() {
    let g2p = engine_with(Box::new(EchoFallback));
    assert_eq!(say(&g2p, "hello glorp world"), "həlˈO <glorp> wˈɜɹld ");
    // A single unknown character does not go to the fallback.
    assert_eq!(say(&g2p, "x"), "❓ ");
}

#[test]
fn a_failing_fallback_fails_the_text() {
    let g2p = engine_with(Box::new(BrokenFallback));
    let e = g2p.g2p("hello glorp").unwrap_err();
    assert_eq!(e.message(), "fallback error: no voice for glorp");
    let G2PError::Fallback(inner) = e;
    assert_eq!(inner.message, "no voice for glorp");
    assert!(g2p.g2p("hello").is_ok());
    // The last failing word is the one that is told of.
    let e = g2p.g2p("glorp blarg").unwrap_err();
    assert_eq!(e.message(), "fallback error: no voice for blarg");
    // An unknown part of a hyphenated word fails the whole.
    let e = g2p.g2p("-hello-blarg").unwrap_err();
    assert_eq!(e.message(), "fallback error: no voice for blarg");
}

#[test]
fn without_a_fallback_nothing_fails() {
    let g2p = G2P::with_fallback(Language::EnglishUS, resources(), None);
    assert_eq!(say(&g2p, "hello glorp"), "həlˈO ❓  ❓  ˈO  ❓  ❓  ");
}

#[test]
fn every_token_has_a_pronunciation() {
    let (out, tokens) = engine().g2p("Hello, strange 42 (world)…").unwrap();
    let mut all = String::new();
    for t in &tokens {
        all.push_str(t.phonemes.as_deref().unwrap());
        all.push_str(&t.whitespace);
    }
    assert_eq!(all, out);
    let texts: Vec<&str> = tokens.iter().map(|t| t.text.as_str()).collect();
    assert_eq!(texts, vec!["Hello", ",", "strange", "42", "(", "world", ")", "…"]);
}

#[test]
fn numbers_are_read_as_their_words() {
    let g2p = engine();
    assert_eq!(g2p.convert_number("42"), "forty-two");
    assert!(g2p.is_number("42"));
    assert!(g2p.is_number("1,234"));
    assert!(g2p.is_number("-5"));
    assert!(!g2p.is_number("4x"));
    assert!(!g2p.is_number(","));
    assert!(!g2p.is_number("9223372036854775808"));
    assert_eq!(g2p.convert_number("1,2"), g2p.convert_number("12"));
    assert_eq!(g2p.convert_number("4x"), "4x");
    assert_eq!(say(&g2p, "5"), format!("{} ", say(&g2p, "five")));
    assert_eq!(say(&g2p, "42"), format!("{} ", say(&g2p, "forty-two")));
    assert_eq!(say(&g2p, "forty-two"), "fˈɔɹTi   tˈu ");
}

#[test]
fn the_largest_numbers_have_words() {
    let g2p = engine();
    let body = "nine quintillion two hundred twenty-three quadrillion three hundred seventy-two \
                trillion thirty-six billion eight hundred fifty-four million seven hundred \
                seventy-five thousand eight hundred and";
    assert_eq!(g2p.convert_number("9223372036854775807"), format!("{} seven", body));
    assert_eq!(g2p.convert_number("-9223372036854775808"), format!("minus {} eight", body));
    assert_eq!(g2p.convert_number("0"), "zero");
    assert_eq!(g2p.convert_number("-1"), "minus one");
    assert_eq!(g2p.convert_number("1000000000000000000"), "one quintillion");
    assert_eq!(g2p.convert_number("1001"), "one thousand and one");
}

#[test]
fn every_number_has_words() {
    let g2p = engine();
    let mut n: i64 = 1;
    for k in 0..63u32 {
        for d in [-1i64, 0, 1] {
            for m in [n.wrapping_add(d), n.wrapping_add(d).wrapping_neg(), 10i64.wrapping_pow(k) + d] {
                let words = g2p.convert_number(&m.to_string());
                assert!(
                    words.chars().all(|c| c.is_ascii_lowercase() || c == ' ' || c == '-'),
                    "{}",
                    words
                );
            }
        }
        n = n.wrapping_mul(2);
    }
}

#[test]
fn hyphenated_words_are_read_by_parts() {
    let g2p = engine();
    // A hyphen is a token of its own but for one before digits.
    let (out, tokens) = g2p.g2p("hello-world").unwrap();
    let texts: Vec<&str> = tokens.iter().map(|t| t.text.as_str()).collect();
    assert_eq!(texts, vec!["hello", "-", "world"]);
    assert_eq!(out, "həlˈO   wˈɜɹld ");
    assert_eq!(say(&g2p, "-5.5"), format!("{} ", say(&g2p, "5.5")));
    assert_eq!(say(&g2p, "--"), " ");
}

#[test]
fn accents_are_dropped_from_single_letters() {
    let g2p = engine();
    assert_eq!(say(&g2p, "é"), "ˈi  ");
    assert_eq!(say(&g2p, "ö"), "ˈO  ");
    assert_eq!(say(&g2p, "—"), " ");
    assert_eq!(say(&g2p, "…"), "  ");
    assert_eq!(say(&g2p, "ж"), "❓ ");
}

#[test]
fn blank_text_is_read_as_nothing() {
    for text in ["", " ", "\n\t \u{a0}\u{3000}"] {
        let (out, tokens) = engine().g2p(text).unwrap();
        assert_eq!(out, "");
        assert!(tokens.is_empty());
    }
}

#[test]
fn kept_punctuation_is_handed_on() {
    let g2p = engine();
    for c in [";", ":", ",", ".", "!", "?"] {
        assert_eq!(say(&g2p, c), format!("{} ", c));
    }
    for c in ["(", ")", "\"", "#", "*", "/", "<", "[", "^", "`", "{", "~"] {
        assert_eq!(say(&g2p, c), "  ", "{}", c);
    }
    assert_eq!(say(&g2p, "%"), "pəɹsˈɛnt ");
}

#[test]
fn casing_sets_the_stress() {
    let g2p = engine();
    // "have" is unstressed: capitalized it gets secondary stress, in capitals primary.
    assert_eq!(say(&g2p, "have"), "hæv ");
    assert_eq!(say(&g2p, "Have"), "hˌæv ");
    assert_eq!(say(&g2p, "HAVE"), "hˈæv ");
}

#[test]
fn a_stress_link_counts_before_casing() {
    let g2p = engine();
    assert_eq!(say(&g2p, "[HAVE](-2)"), "hæv ");
    assert_eq!(say(&g2p, "[have](2)"), "hˈæv ");
    assert_eq!(say(&g2p, "[hello](-2)"), "həlO ");
    assert_eq!(say(&g2p, "[hello](-1)"), "həlˌO ");
    assert_eq!(say(&g2p, "[hello](-0.5)"), "həlˌO ");
    assert_eq!(say(&g2p, "[hello](0.5)"), "həlˈO ");
    assert_eq!(say(&g2p, "[hello](=)"), "həlˈO ");
}

#[test]
fn a_pronunciation_link_is_read_verbatim() {
    let g2p = engine();
    assert_eq!(say(&g2p, "[xyzzy](/həˈloʊ/)"), "həˈloʊ ");
    assert_eq!(say(&g2p, "[hello](/x-y z/) world"), "x-y z wˈɜɹld ");
    // Only the first of several tokens carries it.
    let (out, tokens) = g2p.g2p("[New York](/nujɔɹk/)").unwrap();
    assert_eq!(out, "nujɔɹk  ");
    assert_eq!(tokens[0].phonemes.as_deref(), Some("nujɔɹk"));
    assert_eq!(tokens[1].phonemes.as_deref(), Some(""));
}

#[test]
fn link_text_is_pronounced_like_any_other() {
    let g2p = engine();
    let (out, tokens) = g2p.g2p("[hello world](#flag#) world").unwrap();
    assert_eq!(out, "həlˈO wˈɜɹld wˈɜɹld ");
    assert_eq!(tokens[0].underscore().num_flags, "flag");
    assert_eq!(tokens[1].underscore().num_flags, "flag");
    assert_eq!(tokens[2].underscore().num_flags, "");
}

#[test]
fn preprocess_gives_words_without_markup() {
    let (stripped, words, features) = engine().preprocess(" say [hello](+2)\u{a0}please ");
    assert_eq!(stripped, " say hello\u{a0}please ");
    assert_eq!(words, vec!["say", "hello", "please"]);
    assert!(features.is_empty());
}

#[test]
fn tokens_know_their_bytes() {
    let g2p = engine();
    let text = " don't café-5,000 ’tis 'x' ";
    let pairs = g2p.tokenize_with_offsets(text);
    let seen: Vec<(&str, &str)> = pairs
        .iter()
        .map(|(t, r)| (t.text.as_str(), &text[r.start..r.end]))
        .collect();
    for (a, b) in &seen {
        assert_eq!(a, b);
    }
    let texts: Vec<&str> = seen.iter().map(|p| p.0).collect();
    assert_eq!(texts, vec!["don't", "café", "-", "5,000", "’", "tis", "'", "x", "'"]);
    let tokens = g2p.tokenize(text);
    assert_eq!(tokens.len(), pairs.len());
    assert_eq!(tokens[0].tag, "NN");
    assert_eq!(tokens[0].whitespace, " ");
    assert!(tokens[0].phonemes.is_none());
}

#[test]
fn a_plain_word_is_one_token() {
    let g2p = engine();
    for word in ["hello", "X", "é", "5", "…", "PLAYING", "\u{200b}", "\u{0}"] {
        let pairs = g2p.tokenize_with_offsets(word);
        assert_eq!(pairs.len(), 1, "{:?}", word);
        assert_eq!(pairs[0].0.text, word);
        assert_eq!(pairs[0].1, 0..word.len());
    }
}

#[test]
fn every_lone_character_is_one_token() {
    let g2p = engine();
    for c in (0u32..0x3000).filter_map(char::from_u32) {
        let s = c.to_string();
        let n = g2p.tokenize(&s).len();
        assert_eq!(n, if c.is_whitespace() { 0 } else { 1 }, "{:?}", c);
    }
}

#[test]
fn the_engine_speaks_the_dialect_it_is_made_for() {
    let us = engine();
    let gb = G2P::new(Language::EnglishGB, resources());
    assert_eq!(us.lexicon.lang, Language::EnglishUS);
    assert_eq!(gb.lexicon.lang, Language::EnglishGB);
    assert_eq!(us.unk, "❓");
    assert_eq!(say(&us, "foxes"), "fˈɑksᵻz ");
    assert_eq!(say(&gb, "foxes"), "fˈɑksɪz ");
}

#[test]
fn likely_entries_are_asked_last() {
    assert_eq!(say(&engine(), "silver"), "sˈɪlvəɹ ");
    assert_eq!(say(&engine(), "silvers"), "sˈɪlvəɹz ");
}

#[test]
fn a_number_keeps_its_sign() {
    let g2p = engine();
    assert_eq!(g2p.convert_number("-5"), "minus five");
    assert_eq!(say(&g2p, "-5"), "mˈInəs fˈIv  ");
    let (_, tokens) = g2p.g2p("-5").unwrap();
    assert_eq!(tokens.len(), 1);
    assert_eq!(tokens[0].phonemes.as_deref(), Some(say(&g2p, "minus five").as_str()));
    assert_eq!(say(&g2p, "-1,000"), format!("{} ", say(&g2p, &g2p.convert_number("-1000"))));
}

#[test]
fn a_low_level_strips_an_inflected_word() {
    let g2p = engine();
    assert_eq!(say(&g2p, "[playing](-2)"), "plAɪŋ ");
    assert_eq!(say(&g2p, "[plays](-2)"), "plAz ");
}

#[test]
fn only_apostrophes_are_left_out() {
    let g2p = engine();
    let alphabet = ['a', 'é', '5', '٣', '-', '_', '.', ',', '\'', '’', '‘', ' ', '…', '\u{301}'];
    let mut texts = vec![String::new()];
    for _ in 0..3 {
        let mut longer = Vec::new();
        for t in &texts {
            for c in alphabet {
                let mut s = t.clone();
                s.push(c);
                longer.push(s);
            }
        }
        texts = longer;
    }
    for text in &texts {
        let pairs = g2p.tokenize_with_offsets(text);
        for (at, c) in text.char_indices() {
            let held = pairs.iter().any(|(_, r)| r.start <= at && at < r.end);
            assert!(held || c == ' ' || c == '\'', "{:?} in {:?}", c, text);
        }
        assert!(pairs.iter().all(|(t, _)| !t.text.is_empty() && !t.text.contains(' ')));
    }
    let feet = g2p.tokenize("5'6");
    let texts: Vec<&str> = feet.iter().map(|t| t.text.as_str()).collect();
    assert_eq!(texts, vec!["5", "6"]);
}

#[test]
fn whole_words_are_tokens_anywhere() {
    let g2p = engine();
    let tokens = g2p.tokenize("hello, PLAYING … é world-wide x");
    let texts: Vec<&str> = tokens.iter().map(|t| t.text.as_str()).collect();
    assert_eq!(texts, vec!["hello", ",", "PLAYING", "…", "é", "world", "-", "wide", "x"]);
}

#[test]
fn reading_twice_gives_the_same() {
    let g2p = engine();
    for text in ["Hello, world!", "glorp -42 café", "[hello world](/x/) I object", ""] {
        let (a, ta) = g2p.g2p(text).unwrap();
        let (b, tb) = g2p.g2p(text).unwrap();
        assert_eq!(a, b);
        assert_eq!(format!("{:?}", ta), format!("{:?}", tb));
    }
}

#[test]
fn an_unknown_word_sounds_like_its_letters() {
    let g2p = engine();
    for word in ["glorp", "eBook", "Zürich", "北京"] {
        let letters: Vec<String> = word.chars().map(|c| say(&g2p, &c.to_string())).collect();
        let (out, tokens) = g2p.g2p(word).unwrap();
        assert_eq!(tokens.len(), 1);
        assert_eq!(tokens[0].phonemes.as_deref(), Some(letters.join(" ").as_str()));
        assert_eq!(out, format!("{} ", letters.join(" ")));
    }
}

#[test]
fn a_number_sounds_like_its_words() {
    let g2p = engine();
    for number in ["0", "7", "42", "-5", "1,234", "-1,000"] {
        let (_, tokens) = g2p.g2p(number).unwrap();
        assert_eq!(tokens.len(), 1);
        let words = say(&g2p, &g2p.convert_number(number));
        assert_eq!(tokens[0].phonemes.as_deref(), Some(words.as_str()));
    }
}

#[test]
fn every_word_has_a_token_inside() {
    let g2p = engine();
    for text in ["''", "a '' b'c", "' ''' 5'6 '", "x--y ‘’ 'tis", " [ ( '-' "] {
        let pairs = g2p.tokenize_with_offsets(text);
        let mut words: Vec<(usize, usize)> = Vec::new();
        let mut at = 0;
        for word in text.split_whitespace() {
            let start = at + text[at..].find(word).unwrap();
            at = start + word.len();
            words.push((start, at));
        }
        for (s, e) in &words {
            assert!(pairs.iter().any(|(_, r)| *s <= r.start && r.end <= *e), "{:?}", text);
        }
        for (_, r) in &pairs {
            assert!(words.iter().any(|(s, e)| *s <= r.start && r.end <= *e), "{:?}", text);
        }
    }
}
