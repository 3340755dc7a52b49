//! Handing what links ask for on to the tokens that they mark.

use crate::links;
use crate::links::{LinkFeature, LinkMarker};
use crate::token;
use crate::token::MToken;
use std::ops::Range;
use vstd::prelude::*;

verus! {

/// Whether a marker marks all of the given bytes.
pub open spec fn covers(m: links::Marker, range: (int, int)) -> bool {
    m.start <= range.0 && range.1 <= m.end
}

/// Whether no token before the `k`th is marked.
pub open spec fn is_head(m: links::Marker, ranges: Seq<(int, int)>, k: int) -> bool {
    forall|j: int| 0 <= j < k ==> !covers(m, #[trigger] ranges[j])
}

/// A token with what a feature asks of it. A pronunciation goes to the first of the marked
/// tokens and leaves the others silent.
pub open spec fn featured(t: token::Token, f: links::Feature, head: bool) -> token::Token {
    match f {
        links::Feature::Stress(s) => token::Token { stress: Some(s), ..t },
        links::Feature::Phonemes(p) => token::Token {
            phonemes: Some(
                if head {
                    p
                } else {
                    Seq::empty()
                },
            ),
            ..t
        },
        links::Feature::NumFlags(flags) => token::Token { num_flags: flags, ..t },
    }
}

/// Tokens with what one marker asks of those that it marks.
pub open spec fn mark_one(
    tokens: Seq<token::Token>,
    ranges: Seq<(int, int)>,
    m: links::Marker,
) -> Seq<token::Token> {
    Seq::new(
        tokens.len(),
        |k: int|
            if covers(m, ranges[k]) {
                featured(tokens[k], m.feature, is_head(m, ranges, k))
            } else {
                tokens[k]
            },
    )
}

/// Tokens with what the markers ask of them, a later marker over an earlier one.
pub open spec fn mark_all(
    tokens: Seq<token::Token>,
    ranges: Seq<(int, int)>,
    markers: Seq<links::Marker>,
) -> Seq<token::Token>
    decreases markers.len(),
{
    if markers.len() == 0 {
        tokens
    } else {
        mark_one(mark_all(tokens, ranges, markers.drop_last()), ranges, markers.last())
    }
}

/// The bounds of each range of a list.
pub open spec fn range_views(ranges: Seq<Range<usize>>) -> Seq<(int, int)> {
    ranges.map_values(|r: Range<usize>| (r.start as int, r.end as int))
}

/// Marking leaves text, tag and white space of every token as they are.
pub proof fn lemma_mark_keeps_text(
    tokens: Seq<token::Token>,
    ranges: Seq<(int, int)>,
    markers: Seq<links::Marker>,
)
    ensures
        mark_all(tokens, ranges, markers).len() == tokens.len(),
        forall|k: int|
            0 <= k < tokens.len() ==> {
                let t = #[trigger] mark_all(tokens, ranges, markers)[k];
                t.text == tokens[k].text && t.tag == tokens[k].tag && t.whitespace
                    == tokens[k].whitespace
            },
    decreases markers.len(),
{
    if markers.len() > 0 {
        lemma_mark_keeps_text(tokens, ranges, markers.drop_last());
    }
}

/// Gives a token what a feature asks of it.
fn give(t: &mut MToken, f: &LinkFeature, head: bool)
    ensures
        final(t)@ == featured(old(t)@, f@, head),
{
    match f {
        LinkFeature::Stress(s) => {
            t.underscore_mut().stress = Some(*s);
        },
        LinkFeature::Phonemes(p) => {
            if head {
                t.phonemes = Some(p.clone());
            } else {
                t.phonemes = Some(String::new());
            }
        },
        LinkFeature::NumFlags(flags) => {
            t.underscore_mut().num_flags = flags.clone();
        },
    }
}

/// Gives tokens what one marker asks of those that it marks.
fn apply_marker(tokens: &mut Vec<MToken>, ranges: &Vec<Range<usize>>, m: &LinkMarker)
    requires
        old(tokens)@.len() == ranges@.len(),
    ensures
        token::token_views(final(tokens)@) == mark_one(
            token::token_views(old(tokens)@),
            range_views(ranges@),
            m@,
        ),
        final(tokens)@.len() == old(tokens)@.len(),
{
    let ghost start = token::token_views(tokens@);
    let ghost bounds = range_views(ranges@);
    let n: usize = tokens.len();
    let mut head = true;
    let mut k: usize = 0;
    while k < n
        invariant
            k <= n,
            n == tokens@.len(),
            n == ranges@.len(),
            start.len() == n,
            bounds == range_views(ranges@),
            head == is_head(m@, bounds, k as int),
            forall|j: int|
                0 <= j < k ==> (#[trigger] tokens@[j])@ == mark_one(start, bounds, m@)[j],
            forall|j: int| k <= j < n ==> (#[trigger] tokens@[j])@ == start[j],
        decreases n - k,
    {
        assert(bounds[k as int] == (ranges@[k as int].start as int, ranges@[k as int].end as int));
        let ghost before = tokens@;
        if ranges[k].start >= m.byte_start && ranges[k].end <= m.byte_end {
            give(&mut tokens[k], &m.feature, head);
            head = false;
        }
        assert(forall|j: int| 0 <= j < n && j != k ==> tokens@[j] == before[j]);
        k = k + 1;
    }
    assert(token::token_views(tokens@) =~= mark_one(start, bounds, m@));
}

/// Gives tokens what the markers ask of them.
pub fn apply_markers(
    tokens: &mut Vec<MToken>,
    ranges: &Vec<Range<usize>>,
    markers: &Vec<LinkMarker>,
)
    requires
        old(tokens)@.len() == ranges@.len(),
    ensures
        token::token_views(final(tokens)@) == mark_all(
            token::token_views(old(tokens)@),
            range_views(ranges@),
            links::marker_views(markers@),
        ),
        final(tokens)@.len() == old(tokens)@.len(),
{
    let ghost start = token::token_views(tokens@);
    let ghost all = links::marker_views(markers@);
    let mut i: usize = 0;
    while i < markers.len()
        invariant
            i <= markers@.len(),
            tokens@.len() == ranges@.len(),
            all == links::marker_views(markers@),
            token::token_views(tokens@) == mark_all(
                start,
                range_views(ranges@),
                all.take(i as int),
            ),
        decreases markers@.len() - i,
    {
        apply_marker(tokens, ranges, &markers[i]);
        assert(all.take(i + 1).drop_last() =~= all.take(i as int));
        i = i + 1;
    }
    assert(all.take(markers@.len() as int) =~= all);
}

} // verus!
