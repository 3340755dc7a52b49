//! Markup.

use misaki_rs::links::{parse_link_feature, strip_links, LinkFeature, LinkMarker};
use misaki_rs::marks::apply_markers;
use misaki_rs::stress::Stress;
use misaki_rs::token::MToken;
use regex::Regex;

/// Strips links with a regular expression.
fn strip_by_pattern(pattern: &Regex, text: &str) -> (String, Vec<(usize, usize, String)>) {
    let mut stripped = String::new();
    let mut found = Vec::new();
    let mut last = 0;
    for caps in pattern.captures_iter(text) {
        let whole = caps.get(0).unwrap();
        stripped.push_str(&text[last..whole.start()]);
        let start = stripped.len();
        stripped.push_str(caps.get(1).unwrap().as_str());
        if parse_link_feature(caps.get(2).unwrap().as_str()).is_some() {
            found.push((start, stripped.len(), caps.get(2).unwrap().as_str().to_string()));
        }
        last = whole.end();
    }
    stripped.push_str(&text[last..]);
    (stripped, found)
}

fn pattern() -> Regex {
    Regex::new(r"\[([^\]]+)\]\(([^\)]*)\)").unwrap()
}

fn check(pattern: &Regex, text: &str) {
    let (stripped, markers) = strip_links(text);
    let (expected, found) = strip_by_pattern(pattern, text);
    assert_eq!(stripped, expected, "{:?}", text);
    assert_eq!(markers.len(), found.len(), "{:?}", text);
    for (m, (start, end, raw)) in markers.iter().zip(found.iter()) {
        assert_eq!((m.byte_start, m.byte_end), (*start, *end));
        assert_eq!(Some(&m.feature), parse_link_feature(raw).as_ref());
    }
}

#[test]
fn links_are_found_as_the_pattern_finds_them() {
    let pattern = pattern();
    for text in [
        "",
        "no links",
        "[a](1)",
        "é[ü](1)ß[x](/y/)",
        "[](1)",
        "[]](1)",
        "[a]",
        "[a](",
        "[a](1",
        "[a] (1)",
        "[[a](1)",
        "[a[b](1)]",
        "[a]b](1)",
        "[a](1)[b](2)",
        "[a]([b](1))",
        "[a](x[b](1)",
        "[a\nb](1)",
        "[a](\n)",
        "[a](1))",
        "]([a](1)",
        "[a](1)[",
    ] {
        check(&pattern, text);
    }
}

#[test]
fn short_texts_are_stripped_as_the_pattern_strips_them() {
    let alphabet = ['[', ']', '(', ')', '1', 'é'];
    let mut texts = vec![String::new()];
    for _ in 0..5 {
        let mut longer = Vec::new();
        for t in &texts {
            for c in alphabet {
                let mut s = t.clone();
                s.push(c);
                longer.push(s);
            }
        }
        texts = longer;
    }
    let pattern = pattern();
    for t in &texts {
        check(&pattern, t);
        check(&pattern, &format!("[{}", t));
        check(&pattern, &format!("[1]({}", t));
    }
}

#[test]
fn a_link_leaves_its_text_and_marker() {
    let (stripped, markers) = strip_links("é [ab](2) c");
    assert_eq!(stripped, "é ab c");
    assert_eq!(markers.len(), 1);
    assert_eq!(markers[0].byte_start, 3);
    assert_eq!(markers[0].byte_end, 5);
    assert_eq!(markers[0].feature, LinkFeature::Stress(Stress::whole(2)));
}

#[test]
fn text_without_links_is_left_alone() {
    let (stripped, markers) = strip_links("a ](b) c");
    assert_eq!(stripped, "a ](b) c");
    assert!(markers.is_empty());
    let (stripped, markers) = strip_links("[a] (b) [](1) [d](2");
    assert_eq!(stripped, "[a] (b) [](1) [d](2");
    assert!(markers.is_empty());
}

#[test]
fn features_are_read_to_the_limits() {
    assert_eq!(
        parse_link_feature("2147483647"),
        Some(LinkFeature::Stress(Stress::whole(i32::MAX)))
    );
    assert_eq!(
        parse_link_feature("-2147483648"),
        Some(LinkFeature::Stress(Stress::whole(i32::MIN)))
    );
    assert_eq!(parse_link_feature("2147483648"), None);
    assert_eq!(parse_link_feature("99999999999999999999999"), None);
    assert_eq!(parse_link_feature("+"), None);
    assert_eq!(parse_link_feature("-"), None);
    assert_eq!(parse_link_feature("+-1"), None);
    assert_eq!(parse_link_feature(" 1"), None);
    assert_eq!(parse_link_feature("٣"), None);
    assert_eq!(parse_link_feature("007"), Some(LinkFeature::Stress(Stress::whole(7))));
    assert_eq!(parse_link_feature("/"), None);
    assert_eq!(parse_link_feature("//"), Some(LinkFeature::Phonemes(String::new())));
    assert_eq!(parse_link_feature("//a///"), Some(LinkFeature::Phonemes("/a".to_string())));
    assert_eq!(parse_link_feature("##"), Some(LinkFeature::NumFlags(String::new())));
    assert_eq!(parse_link_feature("#a##"), Some(LinkFeature::NumFlags("a".to_string())));
    assert_eq!(parse_link_feature("/a#"), None);
}

fn token(text: &str) -> MToken {
    MToken::new(text.to_string(), "NN".to_string(), " ".to_string())
}

#[test]
fn markers_reach_the_tokens_that_they_cover() {
    let mut tokens = vec![token("ab"), token("cd"), token("ef")];
    let ranges = vec![0..2, 3..5, 6..8];
    let markers = vec![
        LinkMarker { byte_start: 0, byte_end: 5, feature: LinkFeature::Phonemes("x".to_string()) },
        LinkMarker { byte_start: 3, byte_end: 8, feature: LinkFeature::Stress(Stress::whole(1)) },
        LinkMarker { byte_start: 7, byte_end: 8, feature: LinkFeature::NumFlags("n".to_string()) },
    ];
    apply_markers(&mut tokens, &ranges, &markers);
    assert_eq!(tokens[0].phonemes.as_deref(), Some("x"));
    assert_eq!(tokens[1].phonemes.as_deref(), Some(""));
    assert_eq!(tokens[2].phonemes, None);
    assert_eq!(tokens[0].underscore().stress, None);
    assert_eq!(tokens[1].underscore().stress, Some(Stress::whole(1)));
    assert_eq!(tokens[2].underscore().stress, Some(Stress::whole(1)));
    assert_eq!(tokens[2].underscore().num_flags, "");
}

#[test]
fn a_token_can_be_changed_through_its_underscore() {
    let mut t = token("ab");
    t.underscore_mut().num_flags = "n".to_string();
    assert_eq!(t.underscore().num_flags, "n");
    assert_eq!(t.text, "ab");
}
