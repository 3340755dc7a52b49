//! What markers do to tokens.

use crate::links;
use crate::marks;
use crate::outcome;
use crate::token::Token;
use crate::tokenize;
use vstd::prelude::*;

verus! {

/// A marker changes just the tokens that lie in the bytes that it marks. It gives them its
/// stress level or its flags; its pronunciation goes to the first of them, and the others
/// fall silent. Nothing else of a token changes.
pub proof fn law_one_marker(
    tokens: Seq<Token>,
    ranges: Seq<(int, int)>,
    m: links::Marker,
    k: int,
)
    requires
        0 <= k < tokens.len(),
    ensures
        ({
            let r = marks::mark_all(tokens, ranges, seq![m]);
            let inside = m.start <= ranges[k].0 && ranges[k].1 <= m.end;
            let first = forall|j: int|
                0 <= j < k ==> (#[trigger] ranges[j]).0 < m.start || m.end < ranges[j].1;
            &&& r.len() == tokens.len()
            &&& !inside ==> r[k] == tokens[k]
            &&& inside ==> (m.feature matches links::Feature::Stress(s) ==> r[k] == (Token {
                stress: Some(s),
                ..tokens[k]
            }))
            &&& inside ==> (m.feature matches links::Feature::NumFlags(f) ==> r[k] == (Token {
                num_flags: f,
                ..tokens[k]
            }))
            &&& inside && first ==> (m.feature matches links::Feature::Phonemes(p) ==> r[k] == (
            Token { phonemes: Some(p), ..tokens[k] }))
            &&& inside && !first ==> (m.feature matches links::Feature::Phonemes(_) ==> r[k] == (
            Token { phonemes: Some(Seq::empty()), ..tokens[k] }))
        }),
{
    let one = seq![m];
    assert(one.drop_last() =~= Seq::<links::Marker>::empty());
    assert(one.last() == m);
    reveal_with_fuel(marks::mark_all, 2);
    assert(marks::mark_all(tokens, ranges, one) == marks::mark_one(tokens, ranges, m));
    let first = forall|j: int|
        0 <= j < k ==> (#[trigger] ranges[j]).0 < m.start || m.end < ranges[j].1;
    if first {
        assert(marks::is_head(m, ranges, k));
    } else {
        let j = choose|j: int|
            0 <= j < k && !((#[trigger] ranges[j]).0 < m.start || m.end < ranges[j].1);
        assert(marks::covers(m, ranges[j]));
        assert(!marks::is_head(m, ranges, k));
    }
}

/// Markers do their work in their order, each on what those before it left.
pub proof fn law_markers_in_turn(
    tokens: Seq<Token>,
    ranges: Seq<(int, int)>,
    a: Seq<links::Marker>,
    b: Seq<links::Marker>,
)
    ensures
        marks::mark_all(tokens, ranges, Seq::empty()) == tokens,
        marks::mark_all(tokens, ranges, a + b) == marks::mark_all(
            marks::mark_all(tokens, ranges, a),
            ranges,
            b,
        ),
    decreases b.len(),
{
    if b.len() == 0 {
        assert(a + b =~= a);
    } else {
        law_markers_in_turn(tokens, ranges, a, b.drop_last());
        assert((a + b).drop_last() =~= a + b.drop_last());
        assert((a + b).last() == b.last());
    }
}

/// The bytes of a token are counted in UTF-8 from the start of the text without markup.
pub proof fn law_bytes_of_a_token(plain: Seq<char>, k: int)
    requires
        0 <= k < tokenize::token_spans(plain).len(),
    ensures
        ({
            let span = tokenize::token_spans(plain)[k];
            &&& outcome::byte_ranges(plain).len() == tokenize::token_spans(plain).len()
            &&& outcome::byte_ranges(plain)[k].0 == vstd::utf8::encode_utf8(
                plain.take(span.0),
            ).len()
            &&& outcome::byte_ranges(plain)[k].1 == vstd::utf8::encode_utf8(
                plain.take(span.1),
            ).len()
        }),
{
}

/// The tokens of a text are those of the text without markup, with what all its links ask of
/// them.
pub proof fn law_markup_is_applied(input: Seq<char>)
    ensures
        outcome::marked_tokens(input) == marks::mark_all(
            tokenize::raw_tokens(links::plain_text(input)),
            outcome::byte_ranges(links::plain_text(input)),
            links::markers_of(input),
        ),
{
}

} // verus!
