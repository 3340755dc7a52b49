//! Numbers written in digits, and the words that speak them.

use crate::text;
use vstd::prelude::*;

verus! {

/// Whether a character is an ASCII digit.
pub open spec fn is_digit(c: char) -> bool {
    '0' <= c <= '9'
}

/// Whether every character is an ASCII digit.
pub open spec fn all_digits(s: Seq<char>) -> bool {
    forall|i: int| 0 <= i < s.len() ==> is_digit(#[trigger] s[i])
}

/// The value of a string of digits.
pub open spec fn decimal(s: Seq<char>) -> int
    decreases s.len(),
{
    if s.len() == 0 {
        0
    } else {
        decimal(s.drop_last()) * 10 + (s.last() as int - '0' as int)
    }
}

/// Whether a string starts with a sign.
pub open spec fn is_signed(s: Seq<char>) -> bool {
    s.len() > 0 && (s[0] == '+' || s[0] == '-')
}

/// The value of a string of one or more digits with an optional sign before them.
pub open spec fn integer(s: Seq<char>) -> Option<int> {
    let body = if is_signed(s) {
        s.skip(1)
    } else {
        s
    };
    if body.len() == 0 || !all_digits(body) {
        None
    } else if s[0] == '-' {
        Some(-decimal(body))
    } else {
        Some(decimal(body))
    }
}

/// The value of a signed string of digits that an `i64` can hold.
pub open spec fn integer64(s: Seq<char>) -> Option<i64> {
    match integer(s) {
        Some(v) => if i64::MIN <= v <= i64::MAX {
            Some(v as i64)
        } else {
            None
        },
        None => None,
    }
}

/// The value of a signed string of digits that an `i32` can hold.
pub open spec fn integer32(s: Seq<char>) -> Option<i32> {
    match integer(s) {
        Some(v) => if i32::MIN <= v <= i32::MAX {
            Some(v as i32)
        } else {
            None
        },
        None => None,
    }
}

/// Digits do not make a number negative.
proof fn lemma_decimal_nonneg(s: Seq<char>)
    requires
        all_digits(s),
    ensures
        decimal(s) >= 0,
    decreases s.len(),
{
    if s.len() > 0 {
        assert(is_digit(s[s.len() - 1]));
        assert forall|i: int| 0 <= i < s.drop_last().len() implies is_digit(
            #[trigger] s.drop_last()[i],
        ) by {
            assert(is_digit(s[i]));
        }
        lemma_decimal_nonneg(s.drop_last());
    }
}

/// Reads a string of digits with an optional sign before them.
pub fn parse_i64(s: &str) -> (r: Option<i64>)
    ensures
        r == integer64(s@),
{
    let v = text::chars_of(s);
    let n: usize = v.len();
    let start: usize = if n > 0 && (v[0] == '+' || v[0] == '-') {
        1
    } else {
        0
    };
    let ghost body = s@.skip(start as int);
    assert(start == 0 ==> body =~= s@);
    if n == start {
        return None;
    }
    let mut i: usize = start;
    let mut value: u64 = 0;
    let mut huge = false;
    assert(body.take(0) =~= Seq::<char>::empty());
    while i < n
        invariant
            start <= i <= n,
            n == v@.len(),
            v@ == s@,
            body == s@.skip(start as int),
            start == (if is_signed(s@) {
                1int
            } else {
                0int
            }),
            body.len() > 0,
            all_digits(body.take(i - start)),
            huge ==> decimal(body.take(i - start)) > 0x8000_0000_0000_0000,
            !huge ==> decimal(body.take(i - start)) == value,
        decreases n - i,
    {
        let c = v[i];
        assert(body[i - start] == c);
        if c < '0' || c > '9' {
            assert(!is_digit(body[i - start]));
            return None;
        }
        let d: u64 = (c as u32 - '0' as u32) as u64;
        proof {
            assert(body.take(i - start + 1).drop_last() =~= body.take(i - start));
            lemma_decimal_nonneg(body.take(i - start));
            assert(all_digits(body.take(i - start + 1))) by {
                assert forall|k: int| 0 <= k < i - start + 1 implies is_digit(
                    #[trigger] body.take(i - start + 1)[k],
                ) by {
                    if k < i - start {
                        assert(is_digit(body.take(i - start)[k]));
                    }
                }
            }
        }
        if !huge {
            if value > 1_000_000_000_000_000_000 {
                huge = true;
            } else {
                value = value * 10 + d;
            }
        }
        i = i + 1;
    }
    assert(body.take(n - start) =~= body);
    if huge {
        return None;
    }
    if v[0] == '-' {
        if value > 0x8000_0000_0000_0000 {
            None
        } else if value == 0x8000_0000_0000_0000 {
            Some(i64::MIN)
        } else {
            Some(-(value as i64))
        }
    } else if value > 0x7fff_ffff_ffff_ffff {
        None
    } else {
        Some(value as i64)
    }
}

/// Reads a small number.
pub fn parse_i32(s: &str) -> (r: Option<i32>)
    ensures
        r == integer32(s@),
{
    match parse_i64(s) {
        Some(v) => if -0x8000_0000 <= v && v <= 0x7fff_ffff {
            Some(v as i32)
        } else {
            None
        },
        None => None,
    }
}

/// The words that `num2words` has for a number.
pub uninterp spec fn number_words(n: i64) -> Seq<char>;

/// The characters that number words are made of.
pub open spec fn is_word_char(c: char) -> bool {
    'a' <= c <= 'z' || c == ' ' || c == '-'
}

/// Calls `num2words::Num2Words::new` and `to_words`, with the defaults: a cardinal number in
/// English. Claimed: there are words for every number of this size, since only numbers of
/// more than sixty digits are refused; they depend on the number alone; and they are made of
/// small ASCII letters, spaces and hyphens. What the words are is not stated.
#[verifier::external_body]
fn speak_number(n: i64) -> (r: Option<String>)
    ensures
        r is Some,
        r matches Some(words) ==> words@ == number_words(n),
        r matches Some(words) ==> forall|i: int|
            0 <= i < words@.len() ==> is_word_char(#[trigger] words@[i]),
{
    num2words::Num2Words::new(n).to_words().ok()
}

/// The number that a word writes in digits, with or without commas among them.
pub open spec fn number_in(word: Seq<char>) -> Option<i64> {
    integer64(text::without(word, ','))
}

/// What is read in a word's place: the words for the number that it writes, or the word
/// itself if it writes none.
pub open spec fn spoken(word: Seq<char>) -> Seq<char> {
    match number_in(word) {
        Some(n) => number_words(n),
        None => word,
    }
}

/// Reads the number that a word writes.
pub fn find_number(word: &str) -> (r: Option<i64>)
    ensures
        r == number_in(word@),
{
    let clean = text::remove_char(word, ',');
    parse_i64(clean.as_str())
}

/// The words for the number that a word writes; any other word as it is.
pub fn speak(word: &str) -> (r: String)
    ensures
        r@ == spoken(word@),
        number_in(word@) is Some ==> forall|i: int|
            0 <= i < r@.len() ==> is_word_char(#[trigger] r@[i]),
{
    if let Some(n) = find_number(word) {
        if let Some(words) = speak_number(n) {
            return words;
        }
    }
    word.to_owned()
}

} // verus!
