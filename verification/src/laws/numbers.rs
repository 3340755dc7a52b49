//! What holds of numbers written in digits.

use crate::g2p::G2P;
use crate::laws;
use crate::links;
use crate::number;
use crate::outcome;
use crate::steps;
use crate::stress::Stress;
use crate::text;
use crate::token::Token;
use vstd::arithmetic::power::{lemma_pow_adds, lemma_pow1, pow};
use vstd::prelude::*;

verus! {

/// The value of digits by their places: each digit counts by the power of ten of its place.
pub open spec fn place_value(s: Seq<char>) -> int
    decreases s.len(),
{
    if s.len() == 0 {
        0
    } else {
        (s[0] as int - '0' as int) * pow(10, (s.len() - 1) as nat) + place_value(s.drop_first())
    }
}

/// Whether `s` is made of one or more of the digits 0 to 9.
pub open spec fn is_written(s: Seq<char>) -> bool {
    s.len() > 0 && forall|i: int| 0 <= i < s.len() ==> '0' <= #[trigger] s[i] <= '9'
}

/// Whether `s` is a sign, or nothing.
pub open spec fn may_sign(s: Seq<char>) -> bool {
    s.len() == 0 || s == seq!['+'] || s == seq!['-']
}

/// The value of digits behind a sign.
pub open spec fn signed_value(sign: Seq<char>, digits: Seq<char>) -> int {
    if sign == seq!['-'] {
        -place_value(digits)
    } else {
        place_value(digits)
    }
}

proof fn lemma_place_value_push(s: Seq<char>, c: char)
    ensures
        place_value(s.push(c)) == 10 * place_value(s) + (c as int - '0' as int),
    decreases s.len(),
{
    lemma_pow1(10);
    if s.len() == 0 {
        let one = s.push(c);
        assert(one.drop_first() =~= Seq::<char>::empty());
        assert(pow(10, 0) == 1) by {
            reveal(pow);
        }
        reveal_with_fuel(place_value, 2);
        assert(one[0] == c);
    } else {
        let t = s.drop_first();
        lemma_place_value_push(t, c);
        assert(s.push(c).drop_first() =~= t.push(c));
        let n = (s.len() - 1) as nat;
        lemma_pow_adds(10, n, 1);
        let d = s[0] as int - '0' as int;
        let p = pow(10, n);
        assert(pow(10, n + 1) == p * 10);
        assert(d * (p * 10) == 10 * (d * p)) by (nonlinear_arith);
        let longer = s.push(c);
        assert(longer[0] == s[0]);
        assert((longer.len() - 1) as nat == n + 1);
        assert(place_value(longer) == d * pow(10, n + 1) + place_value(t.push(c)));
        assert(place_value(s) == d * p + place_value(t));
    }
}

proof fn lemma_decimal_is_place_value(s: Seq<char>)
    ensures
        number::decimal(s) == place_value(s),
    decreases s.len(),
{
    if s.len() > 0 {
        let t = s.drop_last();
        lemma_decimal_is_place_value(t);
        lemma_place_value_push(t, s.last());
        assert(s =~= t.push(s.last()));
    }
}

proof fn lemma_commas_out(s: Seq<char>)
    ensures
        text::without(s, ',') == s.filter(|c: char| c != ','),
    decreases s.len(),
{
    reveal(Seq::filter);
    if s.len() > 0 {
        lemma_commas_out(s.drop_last());
    }
}

/// The value of a signed string of digits.
proof fn lemma_integer(sign: Seq<char>, digits: Seq<char>)
    requires
        may_sign(sign),
        is_written(digits),
    ensures
        number::integer(sign + digits) == Some(signed_value(sign, digits)),
        (sign + digits).len() > 0,
{
    let s = sign + digits;
    lemma_decimal_is_place_value(digits);
    assert(forall|i: int| 0 <= i < digits.len() ==> number::is_digit(#[trigger] digits[i]));
    if sign.len() == 0 {
        assert(s =~= digits);
        assert(digits[0] <= '9');
        if sign == seq!['-'] {
            assert(seq!['-'].len() == 1);
        }
    } else {
        assert(s.skip(1) =~= digits);
        assert(s[0] == sign[0]);
        assert(seq!['+'] != seq!['-']) by {
            assert(seq!['+'][0] != seq!['-'][0]);
        }
    }
}

/// A word whose digits, commas left out and sign included, have the value `n` writes that
/// number, and is read as the words for that number, if it fits 64 bits; else it writes none
/// and stays as it is.
pub proof fn law_digits_write_their_value(word: Seq<char>, sign: Seq<char>, digits: Seq<char>)
    requires
        may_sign(sign),
        is_written(digits),
        word.filter(|c: char| c != ',') == sign + digits,
    ensures
        i64::MIN <= signed_value(sign, digits) <= i64::MAX ==> {
            let n = signed_value(sign, digits) as i64;
            &&& number::number_in(word) == Some(n)
            &&& number::spoken(word) == number::number_words(n)
        },
        !(i64::MIN <= signed_value(sign, digits) <= i64::MAX) ==> {
            &&& number::number_in(word) is None
            &&& number::spoken(word) == word
        },
{
    lemma_integer(sign, digits);
    lemma_commas_out(word);
}

/// A word that holds anything but commas and digits, other than one sign before all digits,
/// or that holds no digit, writes no number and stays as it is.
pub proof fn law_other_words_write_no_number(word: Seq<char>)
    requires
        ({
            let s = word.filter(|c: char| c != ',');
            ||| s.len() == 0
            ||| s.len() == 1 && !('0' <= s[0] <= '9')
            ||| !('0' <= s[0] <= '9') && s[0] != '+' && s[0] != '-'
            ||| exists|i: int| 1 <= i < s.len() && !('0' <= #[trigger] s[i] <= '9')
        }),
    ensures
        number::number_in(word) is None,
        number::spoken(word) == word,
{
    let s = word.filter(|c: char| c != ',');
    lemma_commas_out(word);
    if number::integer(s) is Some {
        let body = if number::is_signed(s) {
            s.skip(1)
        } else {
            s
        };
        if exists|i: int| 1 <= i < s.len() && !('0' <= #[trigger] s[i] <= '9') {
            let i = choose|i: int| 1 <= i < s.len() && !('0' <= #[trigger] s[i] <= '9');
            let j = if number::is_signed(s) {
                i - 1
            } else {
                i
            };
            assert(body[j] == s[i]);
            assert(number::is_digit(body[j]));
        } else if s.len() > 0 && !('0' <= s[0] <= '9') && s[0] != '+' && s[0] != '-' {
            assert(number::is_digit(body[0]));
        } else if s.len() == 1 && !('0' <= s[0] <= '9') {
            if !number::is_signed(s) {
                assert(number::is_digit(body[0]));
            }
        }
    }
}

/// A word that the lexicon does not know and whose digits have the value `n` is read as the
/// words for that number.
pub proof fn law_written_number_is_read_in_words(
    g: G2P,
    input: Seq<char>,
    out: Seq<char>,
    tokens: Seq<Token>,
    k: int,
    sign: Seq<char>,
    digits: Seq<char>,
)
    requires
        g.outcome(input, Ok((out, tokens))),
        0 <= k < tokens.len(),
        outcome::marked_tokens(input)[k].phonemes is None,
        laws::reading::heard(g, tokens, k) is None,
        may_sign(sign),
        is_written(digits),
        tokens[k].text.filter(|c: char| c != ',') == sign + digits,
        i64::MIN <= signed_value(sign, digits) <= i64::MAX,
        number::number_words(signed_value(sign, digits) as i64) != tokens[k].text,
    ensures
        tokens[k].phonemes matches Some(ps) && laws::reading::may_read(
            g,
            number::number_words(signed_value(sign, digits) as i64),
            ps,
        ),
        steps::after_lexicon(tokens[k].text, None) == steps::Move::ReadInstead(
            number::number_words(signed_value(sign, digits) as i64),
        ),
{
    law_digits_write_their_value(tokens[k].text, sign, digits);
    laws::reading::law_numbers_are_read_as_words(g, input, out, tokens, k);
}

/// Digits in a link, sign included, ask for the whole stress level of their value, if that
/// fits 32 bits; greater ones ask for nothing.
pub proof fn law_digits_ask_for_their_level(sign: Seq<char>, digits: Seq<char>)
    requires
        may_sign(sign),
        is_written(digits),
    ensures
        i32::MIN <= signed_value(sign, digits) <= i32::MAX ==> links::feature_of(sign + digits)
            == Some(
            links::Feature::Stress(
                Stress { quarters: (4 * signed_value(sign, digits)) as i64 },
            ),
        ),
        !(i32::MIN <= signed_value(sign, digits) <= i32::MAX) ==> links::feature_of(
            sign + digits,
        ) is None,
{
    let raw = sign + digits;
    lemma_integer(sign, digits);
    reveal_strlit("0.5");
    reveal_strlit("+0.5");
    reveal_strlit("-0.5");
    let d = raw.len() - 1;
    assert(raw[d] == digits[digits.len() - 1]);
    assert('0' <= raw[d] <= '9');
    if raw == "0.5"@ {
        let i = 1 - sign.len();
        assert(raw[1] == '.');
        if sign.len() == 0 {
            assert(raw[1] == digits[1]);
        } else {
            assert(raw[0] == sign[0]);
        }
    }
    if raw == "+0.5"@ || raw == "-0.5"@ {
        assert(raw[2] == '.');
        assert(raw[2] == digits[2 - sign.len()]);
    }
}

} // verus!
