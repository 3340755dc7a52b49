//! Stress levels.

use misaki_rs::language::Language;
use misaki_rs::lexicon::Lexicon;
use misaki_rs::stress::{any_vowel, apply_stress, consonant, restress, vowel, Stress};

fn at(ps: &str, quarters: i64) -> String {
    apply_stress(ps, Some(Stress { quarters }))
}

#[test]
fn no_level_leaves_stress_alone() {
    assert_eq!(apply_stress("həlˈO", None), "həlˈO");
    assert_eq!(apply_stress("", None), "");
}

#[test]
fn levels_below_minus_one_strip_all_marks() {
    assert_eq!(at("fˌOnəmˈAʃən", -8), "fOnəmAʃən");
    assert_eq!(at("fˌOnəmˈAʃən", -5), "fOnəmAʃən");
}

#[test]
fn minus_one_demotes() {
    assert_eq!(at("fˌOnəmˈAʃən", -4), "fOnəmˌAʃən");
    assert_eq!(at("fˌOn", -4), "fOn");
    assert_eq!(at("fOn", -4), "fOn");
}

#[test]
fn weak_levels_demote_primary_stress_only() {
    for q in [-2, -1, 0] {
        assert_eq!(at("fˌOnəmˈAʃən", q), "fOnəmˌAʃən");
        assert_eq!(at("fˌOn", q), "fˌOn");
    }
    // Between -1 and -0.5 nothing happens.
    assert_eq!(at("fˌOnəmˈAʃən", -3), "fˌOnəmˈAʃən");
}

#[test]
fn plain_levels_put_secondary_stress_before_the_first_vowel() {
    for q in [0, 2, 4] {
        assert_eq!(at("stɹɪŋ", q), "stɹˌɪŋ");
        assert_eq!(at("ʃʃ", q), "ʃʃ");
    }
    assert_eq!(at("stɹɪŋ", 1), "stɹɪŋ");
    assert_eq!(at("stɹɪŋ", 3), "stɹɪŋ");
    assert_eq!(at("stɹɪŋ", -2), "stɹɪŋ");
}

#[test]
fn high_levels_give_primary_stress() {
    assert_eq!(at("stɹˌɪŋ", 4), "stɹˈɪŋ");
    assert_eq!(at("stɹˌɪŋ", 8), "stɹˈɪŋ");
    assert_eq!(at("stɹɪŋ", 8), "stɹˈɪŋ");
    assert_eq!(at("stɹɪŋ", 5), "stɹˈɪŋ");
    assert_eq!(at("həlˈO", 8), "həlˈO");
    assert_eq!(at("ʃʃ", 8), "ʃʃ");
    assert_eq!(at("stɹˌɪŋ", 2), "stɹˌɪŋ");
}

#[test]
fn stress_changes_nothing_but_marks() {
    for ps in ["", "həlˈO", "fˌOnəmˈAʃən", "stɹɪŋ", "ʃʃ", "ˈ", "ˌˈab"] {
        let bare: String = ps.chars().filter(|c| !"ˈˌ".contains(*c)).collect();
        for q in -10..12 {
            let r = at(ps, q);
            let rest: String = r.chars().filter(|c| !"ˈˌ".contains(*c)).collect();
            assert_eq!(rest, bare, "{} at {}", ps, q);
        }
    }
}

#[test]
fn marks_move_to_the_next_vowel() {
    assert_eq!(restress("ˈstɹɪŋ"), "stɹˈɪŋ");
    assert_eq!(restress("ˈstɹɛŋθ"), "stɹˈɛŋθ");
    assert_eq!(restress("ˈsˌtak"), "stˈˌak");
    assert_eq!(restress("ˈsaˌt"), "sˈaˌt");
    assert_eq!(restress("ˌsˈtɪ"), "stˌˈɪ");
    assert_eq!(restress("ˈbaˌna"), "bˈanˌa");
    assert_eq!(restress("aˈb"), "aˈb");
    assert_eq!(restress("ˈ"), "ˈ");
    assert_eq!(restress(""), "");
}

#[test]
fn levels_are_made_of_wholes_and_halves() {
    assert_eq!(Stress::whole(2), Stress { quarters: 8 });
    assert_eq!(Stress::whole(i32::MIN).quarters, -8589934592);
    assert_eq!(Stress::halves(-1), Stress { quarters: -2 });
}

#[test]
fn a_lexicon_stresses_as_the_levels_say() {
    let lex = Lexicon::new(Language::EnglishUS, Vec::new(), Vec::new());
    assert_eq!(lex.apply_stress("stɹɪŋ", Some(Stress::whole(2))), "stɹˈɪŋ");
}

#[test]
fn sounds_are_vowels_or_consonants() {
    for c in "AIOQWYaiuæɑɒɔəɛɜɪʊʌᵻ".chars() {
        assert!(vowel(c) && !consonant(c));
    }
    for c in "bdfhjklmnpstvwzðŋɡɹɾʃʒʤʧθ".chars() {
        assert!(consonant(c) && !vowel(c));
    }
    for c in "ˈˌ e❓".chars() {
        assert!(!vowel(c) && !consonant(c));
    }
    assert!(any_vowel("stɹɪŋ"));
    assert!(!any_vowel("ʃʃ"));
}

#[test]
fn moving_marks_twice_is_moving_them_once() {
    let alphabet = ['ˈ', 'ˌ', 'a', 's', 't'];
    let mut all = vec![String::new()];
    for _ in 0..5 {
        let mut longer = Vec::new();
        for p in &all {
            for c in alphabet {
                let mut s = p.clone();
                s.push(c);
                longer.push(s);
            }
        }
        all = longer;
    }
    for p in &all {
        let once = restress(p);
        assert_eq!(restress(&once), once);
        let seen = |s: &str| -> String { s.chars().filter(|c| "ˈˌa".contains(*c)).collect() };
        assert_eq!(seen(&once), seen(p));
        let mut a: Vec<char> = p.chars().collect();
        let mut b: Vec<char> = once.chars().collect();
        a.sort();
        b.sort();
        assert_eq!(a, b);
    }
}
