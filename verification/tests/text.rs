//! Strings.

use misaki_rs::text;
use misaki_rs::unicode::{casings, letter};

#[test]
fn splitting_keeps_empty_pieces() {
    assert_eq!(text::split_char("-a--b", '-'), vec!["", "a", "", "b"]);
    assert_eq!(text::split_char("", '-'), vec![""]);
    assert_eq!(text::split_char("é", '-'), vec!["é"]);
}

#[test]
fn joining_puts_the_separator_between() {
    let v = vec!["a".to_string(), "".to_string(), "b".to_string()];
    assert_eq!(text::join(&v, " "), "a  b");
    assert_eq!(text::join(&Vec::new(), " "), "");
}

#[test]
fn strings_are_told_apart() {
    assert!(text::same("é", "é"));
    assert!(!text::same("é", "e"));
    assert!(!text::same("a", "ab"));
    assert_eq!(text::byte_len("é"), 2);
    assert!(text::starts_with("éa", "é"));
    assert!(!text::starts_with("é", "éa"));
    assert!(text::ends_with("aé", "é"));
    assert!(!text::ends_with("a", "éa"));
    assert!(text::contains_char("aé", 'é'));
    assert!(!text::contains_char("ae", 'é'));
}

#[test]
fn strings_are_cut_by_characters() {
    assert_eq!(text::drop_chars("aéb", 2), "a");
    assert_eq!(text::tail_of("éab"), "ab");
    assert_eq!(text::concat("é", "a"), "éa");
    assert_eq!(text::remove_char("a,b,", ','), "ab");
    assert_eq!(text::replace_char("aba", 'a', 'é'), "ébé");
}

#[test]
fn white_space_is_what_unicode_says() {
    for c in (0u32..0x11000).filter_map(char::from_u32) {
        assert_eq!(text::space(c), c.is_whitespace(), "{:?}", c);
    }
    assert_eq!(text::split_whitespace(" a\u{2003}b\n"), vec!["a", "b"]);
    assert!(text::split_whitespace(" \t").is_empty());
}

#[test]
fn casings_are_told() {
    assert_eq!(casings("Apple"), ("apple".to_string(), "APPLE".to_string()));
    assert_eq!(casings("Straße"), ("straße".to_string(), "STRASSE".to_string()));
    assert_eq!(letter('a'), ("a".to_string(), "A".to_string(), true));
    assert_eq!(letter('É'), ("é".to_string(), "É".to_string(), true));
    assert_eq!(letter('5'), ("5".to_string(), "5".to_string(), false));
}
