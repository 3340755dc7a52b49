//! What is done about a word.

use misaki_rs::fallback::FallbackError;
use misaki_rs::lexicon::TokenContext;
use misaki_rs::number::{find_number, parse_i32, parse_i64, speak};
use misaki_rs::sounds::{find_first_sound, look_ahead, normalize, read_symbol};
use misaki_rs::steps::Step;
use misaki_rs::token::MToken;
use misaki_rs::tokenize::{word_tokens, Found, Tokenizer};

fn show(step: Step) -> String {
    format!("{:?}", step)
}

#[test]
fn the_lexicon_answers_first() {
    assert_eq!(show(Step::from_lexicon("a-1", Some("x".to_string()))), "Say(\"x\")");
    assert_eq!(
        show(Step::from_lexicon("-a--b-", None)),
        "ReadParts([\"a\", \"b\"])"
    );
    assert_eq!(show(Step::from_lexicon("--", None)), "ReadParts([])");
    assert_eq!(show(Step::from_lexicon("-", None)), "AskRules");
    assert_eq!(show(Step::from_lexicon("42", None)), "ReadInstead(\"forty-two\")");
    assert_eq!(show(Step::from_lexicon("-5", None)), "ReadInstead(\"minus five\")");
    assert_eq!(show(Step::from_lexicon("-5.5", None)), "ReadParts([\"5.5\"])");
    assert_eq!(show(Step::from_lexicon("twenty-one", None)), "ReadParts([\"twenty\", \"one\"])");
    assert_eq!(show(Step::from_lexicon("word", None)), "AskRules");
}

#[test]
fn the_rules_answer_second() {
    assert_eq!(show(Step::from_rules("word", "?", Some("x".to_string()))), "Say(\"x\")");
    assert_eq!(show(Step::from_rules("word", "?", None)), "AskFallback");
    assert_eq!(show(Step::from_rules("é", "u", None)), "ReadInstead(\"e\")");
    assert_eq!(show(Step::from_rules("–", "u", None)), "ReadInstead(\" \")");
    assert_eq!(show(Step::from_rules("!", "u", None)), "Say(\"!\")");
    assert_eq!(show(Step::from_rules("(", "u", None)), "Say(\" \")");
    assert_eq!(show(Step::from_rules("x", "u", None)), "Say(\"u\")");
    assert_eq!(show(Step::from_rules("", "u", None)), "Say(\"u\")");
}

#[test]
fn the_fallback_answers_last() {
    assert_eq!(show(Step::from_fallback("ab", Some(Ok("x".to_string())))), "Say(\"x\")");
    let e = FallbackError { message: "no".to_string() };
    assert_eq!(
        show(Step::from_fallback("ab", Some(Err(e)))),
        "Fail(FallbackError { message: \"no\" })"
    );
    assert_eq!(
        show(Step::from_fallback("aé", None)),
        "ReadParts([\"a\", \"é\"])"
    );
}

#[test]
fn numbers_are_read_with_their_sign() {
    assert_eq!(parse_i64("0"), Some(0));
    assert_eq!(parse_i64("-0"), Some(0));
    assert_eq!(parse_i64("+12"), Some(12));
    assert_eq!(parse_i64("9223372036854775807"), Some(i64::MAX));
    assert_eq!(parse_i64("-9223372036854775808"), Some(i64::MIN));
    assert_eq!(parse_i64("9223372036854775808"), None);
    assert_eq!(parse_i64("-9223372036854775809"), None);
    assert_eq!(parse_i64("00000000000000000000001"), Some(1));
    assert_eq!(parse_i64("100000000000000000000000"), None);
    assert_eq!(parse_i64(""), None);
    assert_eq!(parse_i64("-"), None);
    assert_eq!(parse_i64("1 "), None);
    assert_eq!(parse_i64("1.0"), None);
    assert_eq!(parse_i32("2147483648"), None);
    assert_eq!(parse_i32("-2147483648"), Some(i32::MIN));
    assert_eq!(find_number("1,234,"), Some(1234));
    assert_eq!(find_number(","), None);
    assert_eq!(find_number("2.0"), None);
}

#[test]
fn numbers_are_parsed_as_by_the_standard_library() {
    for s in ["", "+", "-", "5", "+5", "-5", "٣", "1_0", "--5", "5-", "99999999999999999999"] {
        assert_eq!(parse_i64(s), s.parse::<i64>().ok(), "{:?}", s);
        assert_eq!(parse_i32(s), s.parse::<i32>().ok(), "{:?}", s);
    }
}

#[test]
fn numbers_have_words() {
    assert_eq!(speak("7"), "seven");
    assert_eq!(speak("1,000"), "one thousand");
    assert_eq!(speak("x"), "x");
}

#[test]
fn symbols_are_kept_paused_at_or_unknown() {
    assert_eq!(read_symbol(";", "u"), ";");
    assert_eq!(read_symbol("…", "u"), " ");
    assert_eq!(read_symbol("—", "u"), " ");
    assert_eq!(read_symbol("ab", "u"), "u");
    assert_eq!(read_symbol("é", "u"), "u");
    for c in (0u8..128).map(|b| b as char) {
        let expected = if ";:,.!?".contains(c) {
            c.to_string()
        } else if c.is_ascii_punctuation() {
            " ".to_string()
        } else {
            "u".to_string()
        };
        assert_eq!(read_symbol(&c.to_string(), "u"), expected);
    }
}

#[test]
fn accents_are_dropped() {
    assert_eq!(
        normalize("éèêëáàâäãåíìîïóòôöõúùûüñç—–xÉ"),
        "eeeeaaaaaaiiiiooooouuuunc  xÉ"
    );
}

fn next(text: &str, phonemes: Option<&str>) -> TokenContext {
    let mut t = MToken::new(text.to_string(), "NN".to_string(), " ".to_string());
    t.phonemes = phonemes.map(|p| p.to_string());
    look_ahead(&t)
}

#[test]
fn the_next_token_tells_the_next_sound() {
    assert_eq!(next("apple", None).future_vowel, Some(true));
    assert_eq!(next("Apple", Some("b")).future_vowel, Some(true));
    assert_eq!(next("book", Some("a")).future_vowel, Some(false));
    assert_eq!(next("Édit", None).future_vowel, Some(false));
    assert_eq!(next("8", Some("ˈAt")).future_vowel, Some(true));
    assert_eq!(next("5", Some("fˈIv")).future_vowel, Some(false));
    assert_eq!(next(",", Some(",")).future_vowel, None);
    assert_eq!(next("", None).future_vowel, None);
    assert!(next("TO", None).future_to);
    assert!(!next("too", None).future_to);
    assert_eq!(find_first_sound("ˈ ❓ab"), Some(true));
    assert_eq!(find_first_sound("ˈ"), None);
}

#[test]
fn nothing_is_known_by_default() {
    assert_eq!(
        TokenContext::default(),
        TokenContext { future_vowel: None, future_to: false }
    );
}

fn found(start: usize, text: &str) -> Found {
    Found { start, end: start + text.len(), text: text.to_string() }
}

#[test]
fn a_word_without_pieces_is_one_token() {
    let r = word_tokens(&found(4, "ab"), &Vec::new());
    assert_eq!(r.len(), 1);
    assert_eq!(r[0].0.text, "ab");
    assert_eq!(r[0].1, 4..6);
}

#[test]
fn a_word_is_cut_into_its_pieces() {
    let r = word_tokens(&found(4, "a-bc"), &vec![found(0, "a"), found(2, "bc")]);
    assert_eq!(r.len(), 2);
    assert_eq!(r[0].0.text, "a");
    assert_eq!(r[0].1, 4..5);
    assert_eq!(r[1].0.text, "bc");
    assert_eq!(r[1].1, 6..8);
    assert_eq!(r[1].0.tag, "NN");
    assert_eq!(r[1].0.whitespace, " ");
}

#[test]
fn words_are_the_runs_between_white_space() {
    let t = Tokenizer::new();
    let all: String = (0u32..0x3100).filter_map(char::from_u32).filter(|c| c.is_whitespace()).collect();
    let text = format!("{}ab{}cd", all, all);
    let r = t.tokenize(&text);
    assert_eq!(r.len(), 2);
    assert_eq!(r[0].0.text, "ab");
    assert_eq!(r[1].0.text, "cd");
    assert_eq!(r[1].1, text.len() - 2..text.len());
}
