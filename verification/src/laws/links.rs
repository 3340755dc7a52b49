//! What holds of markup.

use crate::links;
use crate::number;
use crate::stress::Stress;
use crate::text;
use vstd::prelude::*;

verus! {

/// Whether `s` does not hold `c`.
pub open spec fn lacks(s: Seq<char>, c: char) -> bool {
    forall|i: int| 0 <= i < s.len() ==> #[trigger] s[i] != c
}

/// Whether no link starts before position `n` of a text.
pub open spec fn no_link_before(s: Seq<char>, n: int) -> bool {
    forall|i: int| 0 <= i < n ==> #[trigger] links::link_at(s, i) is None
}

/// The link with the given text and feature.
pub open spec fn link(inner: Seq<char>, feature: Seq<char>) -> Seq<char> {
    seq!['['] + inner + seq![']', '('] + feature + seq![')']
}

/// The marker that a link leaves, if its feature asks for anything.
pub open spec fn markers_left(feature: Seq<char>, start: nat, end: nat) -> Seq<links::Marker> {
    match links::feature_of(feature) {
        Some(f) => seq![links::Marker { start: start as int, end: end as int, feature: f }],
        None => Seq::empty(),
    }
}

/// The first place from `from` on, seen from a text with `a` before it.
proof fn lemma_first_at_behind(a: Seq<char>, b: Seq<char>, c: char, from: int)
    requires
        0 <= from,
    ensures
        from <= b.len() ==> links::first_at(a + b, c, a.len() + from) == a.len() + links::first_at(
            b,
            c,
            from,
        ),
        from > b.len() ==> links::first_at(a + b, c, a.len() + from) == a.len() + b.len(),
    decreases b.len() - from,
{
    if from < b.len() {
        assert((a + b)[a.len() + from] == b[from]);
        if b[from] != c {
            lemma_first_at_behind(a, b, c, from + 1);
        }
    }
}

proof fn lemma_link_at_behind(a: Seq<char>, b: Seq<char>, i: int)
    requires
        0 <= i < b.len(),
    ensures
        links::link_at(a + b, a.len() + i) == match links::link_at(b, i) {
            Some((j, k)) => Some((a.len() + j, a.len() + k)),
            None => None,
        },
{
    let s = a + b;
    let j = links::first_at(b, ']', i + 1);
    links::lemma_first_at(b, ']', i + 1);
    lemma_first_at_behind(a, b, ']', i + 1);
    lemma_first_at_behind(a, b, ')', j + 2);
    assert(s[a.len() + i] == b[i]);
    if j + 1 < b.len() {
        assert(s[a.len() + j + 1] == b[j + 1]);
    }
    assert(links::first_at(s, ']', a.len() + i + 1) == a.len() + j);
    assert(links::first_at(s, ')', a.len() + j + 2) == a.len() + links::first_at(b, ')', j + 2)
        || j + 2 > b.len());
}

/// What is left behind a stretch of text does not depend on that stretch.
proof fn lemma_behind(a: Seq<char>, b: Seq<char>, i: int, base: nat)
    requires
        0 <= i <= b.len(),
    ensures
        links::plain_from(a + b, a.len() + i) == links::plain_from(b, i),
        links::markers_from(a + b, a.len() + i, base) == links::markers_from(b, i, base),
    decreases b.len() - i,
{
    let s = a + b;
    if i < b.len() {
        lemma_link_at_behind(a, b, i);
        match links::link_at(b, i) {
            Some((j, k)) => {
                links::lemma_first_at(b, ']', i + 1);
                links::lemma_first_at(b, ')', j + 2);
                assert(s.subrange(a.len() + i + 1, a.len() + j) =~= b.subrange(i + 1, j));
                assert(s.subrange(a.len() + j + 2, a.len() + k) =~= b.subrange(j + 2, k));
                lemma_behind(a, b, k + 1, base + text::utf8_len(b.subrange(i + 1, j)));
            },
            None => {
                assert(s[a.len() + i] == b[i]);
                lemma_behind(a, b, i + 1, base + text::utf8_len(seq![b[i]]));
            },
        }
    }
}

/// A stretch in which no link starts stays as it is.
proof fn lemma_before(a: Seq<char>, b: Seq<char>, i: int, base: nat)
    requires
        no_link_before(a + b, a.len() as int),
        0 <= i <= a.len(),
    ensures
        links::plain_from(a + b, i) == a.skip(i) + links::plain_from(a + b, a.len() as int),
        links::markers_from(a + b, i, base) == links::markers_from(
            a + b,
            a.len() as int,
            base + text::utf8_len(a.skip(i)),
        ),
    decreases a.len() - i,
{
    let s = a + b;
    if i < a.len() {
        assert(s[i] == a[i]);
        let one = seq![s[i]];
        lemma_before(a, b, i + 1, base + text::utf8_len(one));
        assert(a.skip(i) =~= one + a.skip(i + 1));
        text::lemma_utf8_len_concat(one, a.skip(i + 1));
        assert(links::plain_from(s, i) =~= a.skip(i) + links::plain_from(s, a.len() as int));
    } else {
        assert(a.skip(i) =~= Seq::<char>::empty());
        text::lemma_utf8_len_chars(a.skip(i));
        assert(links::plain_from(s, i) =~= a.skip(i) + links::plain_from(s, a.len() as int));
    }
}

proof fn lemma_first_at_is(s: Seq<char>, c: char, from: int, at: int)
    requires
        0 <= from <= at < s.len(),
        s[at] == c,
        forall|i: int| from <= i < at ==> s[i] != c,
    ensures
        links::first_at(s, c, from) == at,
    decreases at - from,
{
    if from < at {
        lemma_first_at_is(s, c, from + 1, at);
    }
}

/// From a text without a complete link nothing is taken out, and nothing is asked for.
pub proof fn law_text_without_links(s: Seq<char>)
    requires
        no_link_before(s, s.len() as int),
    ensures
        links::plain_text(s) == s,
        links::markers_of(s) == Seq::<links::Marker>::empty(),
{
    let none = Seq::<char>::empty();
    assert(s + none =~= s);
    lemma_before(s, none, 0, 0);
    assert(s.skip(0) =~= s);
    assert(s + Seq::<char>::empty() =~= s);
}

/// A link is reduced to its text, what stands before it stays, and the text behind it is
/// treated as if it stood alone. The link leaves a marker of just the bytes of its text, or
/// none where its feature asks for nothing.
pub proof fn law_link_is_reduced_to_its_text(
    before: Seq<char>,
    inner: Seq<char>,
    feature: Seq<char>,
    after: Seq<char>,
)
    requires
        no_link_before(before + link(inner, feature) + after, before.len() as int),
        inner.len() > 0,
        lacks(inner, ']'),
        lacks(feature, ')'),
    ensures
        links::plain_text(before + link(inner, feature) + after) == before + inner
            + links::plain_text(after),
        links::markers_of(before + link(inner, feature) + after) == markers_left(
            feature,
            text::utf8_len(before),
            text::utf8_len(before + inner),
        ) + links::markers_from(after, 0, text::utf8_len(before + inner)),
{
    let l = link(inner, feature);
    let tail = l + after;
    let s = before + l + after;
    assert(s =~= before + tail);
    lemma_before(before, tail, 0, 0);
    assert(before.skip(0) =~= before);
    let start = text::utf8_len(before);
    lemma_behind(before, tail, 0, start);
    let j = 1 + inner.len() as int;
    let k = j + 2 + feature.len() as int;
    assert(tail[0] == '[');
    assert(forall|i: int| 1 <= i < j ==> tail[i] == inner[i - 1]);
    assert(tail[j] == ']');
    assert(tail[j + 1] == '(');
    assert(forall|i: int| j + 2 <= i < k ==> tail[i] == feature[i - j - 2]);
    assert(tail[k] == ')');
    lemma_first_at_is(tail, ']', 1, j);
    lemma_first_at_is(tail, ')', j + 2, k);
    assert(links::link_at(tail, 0) == Some((j, k)));
    assert(tail.subrange(1, j) =~= inner);
    assert(tail.subrange(j + 2, k) =~= feature);
    text::lemma_utf8_len_concat(before, inner);
    let end = start + text::utf8_len(inner);
    assert(l.len() == k + 1);
    lemma_behind(l, after, 0, end);
    let rest = links::plain_text(after);
    assert(links::plain_from(tail, 0) == inner + rest);
    assert(before + (inner + rest) =~= before + inner + rest);
    let more = links::markers_from(after, 0, end);
    assert(Seq::<links::Marker>::empty() + more =~= more);
}

/// Every marker marks bytes of the text without markup, and the markers stand in order, one
/// behind the other.
pub proof fn law_markers_lie_in_the_text(s: Seq<char>)
    ensures
        forall|n: int|
            0 <= n < links::markers_of(s).len() ==> 0 <= (#[trigger] links::markers_of(s)[n]).start
                < links::markers_of(s)[n].end <= text::utf8_len(links::plain_text(s)),
        forall|n: int, m: int|
            0 <= n < m < links::markers_of(s).len()
                ==> (#[trigger] links::markers_of(s)[n]).end <= (
            #[trigger] links::markers_of(s)[m]).start,
{
    lemma_markers_in_order(s, 0, 0);
}

proof fn lemma_markers_in_order(s: Seq<char>, i: int, base: nat)
    requires
        0 <= i,
    ensures
        forall|n: int|
            0 <= n < links::markers_from(s, i, base).len() ==> base <= (
            #[trigger] links::markers_from(s, i, base)[n]).start < links::markers_from(
                s,
                i,
                base,
            )[n].end <= base + text::utf8_len(links::plain_from(s, i)),
        forall|n: int, m: int|
            0 <= n < m < links::markers_from(s, i, base).len() ==> (#[trigger] links::markers_from(
                s,
                i,
                base,
            )[n]).end <= (#[trigger] links::markers_from(s, i, base)[m]).start,
    decreases s.len() - i,
{
    if i < s.len() {
        let all = links::markers_from(s, i, base);
        match links::link_at(s, i) {
            Some((j, k)) => {
                links::lemma_first_at(s, ']', i + 1);
                links::lemma_first_at(s, ')', j + 2);
                let inner = s.subrange(i + 1, j);
                let after = base + text::utf8_len(inner);
                text::lemma_utf8_len_chars(inner);
                text::lemma_utf8_len_concat(inner, links::plain_from(s, k + 1));
                lemma_markers_in_order(s, k + 1, after);
                let rest = links::markers_from(s, k + 1, after);
                if links::feature_of(s.subrange(j + 2, k)) is Some {
                    assert forall|n: int| 0 < n < all.len() implies #[trigger] all[n] == rest[n
                        - 1] by {}
                    assert forall|n: int, m: int| 0 <= n < m < all.len() implies (
                    #[trigger] all[n]).end <= (#[trigger] all[m]).start by {
                        assert(all[m] == rest[m - 1]);
                        if n > 0 {
                            assert(all[n] == rest[n - 1]);
                        }
                    }
                }
            },
            None => {
                let one = seq![s[i]];
                text::lemma_utf8_len_concat(one, links::plain_from(s, i + 1));
                lemma_markers_in_order(s, i + 1, base + text::utf8_len(one));
            },
        }
    }
}

/// Whether a position in bytes lies between two characters of a text, or at one of its ends.
pub open spec fn is_boundary(s: Seq<char>, at: int) -> bool {
    exists|i: int| 0 <= i <= s.len() && at == text::utf8_len(#[trigger] s.take(i))
}

/// Every marker starts and ends between characters of the text without markup.
pub proof fn law_markers_fall_between_characters(s: Seq<char>)
    ensures
        forall|n: int|
            0 <= n < links::markers_of(s).len() ==> is_boundary(
                links::plain_text(s),
                (#[trigger] links::markers_of(s)[n]).start,
            ) && is_boundary(links::plain_text(s), links::markers_of(s)[n].end),
{
    let none = Seq::<char>::empty();
    text::lemma_utf8_len_chars(none);
    assert(none + links::plain_from(s, 0) =~= links::plain_from(s, 0));
    lemma_markers_on_boundaries(s, 0, none);
}

proof fn lemma_boundary_of_prefix(a: Seq<char>, b: Seq<char>)
    ensures
        is_boundary(a + b, text::utf8_len(a) as int),
{
    assert((a + b).take(a.len() as int) =~= a);
}

proof fn lemma_markers_on_boundaries(s: Seq<char>, i: int, before: Seq<char>)
    requires
        0 <= i,
    ensures
        forall|n: int|
            0 <= n < links::markers_from(s, i, text::utf8_len(before)).len() ==> is_boundary(
                before + links::plain_from(s, i),
                (#[trigger] links::markers_from(s, i, text::utf8_len(before))[n]).start,
            ) && is_boundary(
                before + links::plain_from(s, i),
                links::markers_from(s, i, text::utf8_len(before))[n].end,
            ),
    decreases s.len() - i,
{
    if i < s.len() {
        let whole = before + links::plain_from(s, i);
        let all = links::markers_from(s, i, text::utf8_len(before));
        match links::link_at(s, i) {
            Some((j, k)) => {
                links::lemma_first_at(s, ']', i + 1);
                links::lemma_first_at(s, ')', j + 2);
                let inner = s.subrange(i + 1, j);
                let tail = links::plain_from(s, k + 1);
                text::lemma_utf8_len_concat(before, inner);
                lemma_markers_on_boundaries(s, k + 1, before + inner);
                assert(before + inner + tail =~= whole);
                lemma_boundary_of_prefix(before, links::plain_from(s, i));
                lemma_boundary_of_prefix(before + inner, tail);
                let rest = links::markers_from(s, k + 1, text::utf8_len(before + inner));
                if links::feature_of(s.subrange(j + 2, k)) is Some {
                    assert forall|n: int| 0 <= n < all.len() implies is_boundary(
                        whole,
                        (#[trigger] all[n]).start,
                    ) && is_boundary(whole, all[n].end) by {
                        if n > 0 {
                            assert(all[n] == rest[n - 1]);
                        }
                    }
                }
            },
            None => {
                let one = seq![s[i]];
                text::lemma_utf8_len_concat(before, one);
                lemma_markers_on_boundaries(s, i + 1, before + one);
                assert(before + one + links::plain_from(s, i + 1) =~= whole);
            },
        }
    }
}

proof fn lemma_fenced_is_no_number(raw: Seq<char>, c: char)
    requires
        c == '/' || c == '#',
        links::is_fenced(raw, c),
    ensures
        number::integer32(raw) is None,
        raw != "0.5"@,
        raw != "+0.5"@,
        raw != "-0.5"@,
{
    reveal_strlit("0.5");
    reveal_strlit("+0.5");
    reveal_strlit("-0.5");
    assert(!number::is_digit(raw[0]));
    assert(!number::is_signed(raw));
    assert(!number::all_digits(raw));
}

proof fn lemma_trimmed_one(s: Seq<char>, c: char)
    requires
        s.len() == 0 || s.last() != c,
    ensures
        links::trimmed(s + seq![c], c) == s,
{
    reveal_with_fuel(links::trimmed, 2);
    assert((s + seq![c]).drop_last() =~= s);
}

/// What stands between slashes is the pronunciation that the link asks for, as it stands.
pub proof fn law_slashes_give_pronunciation(ps: Seq<char>)
    requires
        ps.len() == 0 || ps.last() != '/',
    ensures
        links::feature_of(seq!['/'] + ps + seq!['/']) == Some(links::Feature::Phonemes(ps)),
{
    let raw = seq!['/'] + ps + seq!['/'];
    assert(links::is_fenced(raw, '/'));
    lemma_fenced_is_no_number(raw, '/');
    assert(raw.skip(1) =~= ps + seq!['/']);
    lemma_trimmed_one(ps, '/');
}

/// What stands between hash signs are the number flags that the link asks for, as they stand.
pub proof fn law_hashes_give_flags(flags: Seq<char>)
    requires
        flags.len() == 0 || flags.last() != '#',
    ensures
        links::feature_of(seq!['#'] + flags + seq!['#']) == Some(links::Feature::NumFlags(flags)),
{
    let raw = seq!['#'] + flags + seq!['#'];
    assert(links::is_fenced(raw, '#'));
    lemma_fenced_is_no_number(raw, '#');
    assert(raw.skip(1) =~= flags + seq!['#']);
    lemma_trimmed_one(flags, '#');
}

/// A link is an opening bracket, at least one character up to the first closing bracket, an
/// opening parenthesis right behind that, and what stands up to the first closing
/// parenthesis.
pub proof fn law_shape_of_a_link(s: Seq<char>, i: int, j: int, k: int)
    ensures
        links::link_at(s, i) == Some((j, k)) <==> {
            &&& 0 <= i
            &&& i + 1 < j
            &&& j + 2 <= k < s.len()
            &&& s[i] == '['
            &&& s[j] == ']'
            &&& s[j + 1] == '('
            &&& s[k] == ')'
            &&& forall|l: int| i < l < j ==> #[trigger] s[l] != ']'
            &&& forall|l: int| j + 2 <= l < k ==> #[trigger] s[l] != ')'
        },
{
    if links::link_at(s, i) == Some((j, k)) {
        links::lemma_first_at(s, ']', i + 1);
        links::lemma_first_at(s, ')', j + 2);
    }
    if 0 <= i && i + 1 < j && j + 2 <= k < s.len() && s[i] == '[' && s[j] == ']' && s[j + 1] == '('
        && s[k] == ')' && (forall|l: int| i < l < j ==> #[trigger] s[l] != ']') && (forall|l: int|
        j + 2 <= l < k ==> #[trigger] s[l] != ')') {
        lemma_first_at_is(s, ']', i + 1, j);
        lemma_first_at_is(s, ')', j + 2, k);
    }
}

/// The markers of a text lie as many bytes further on as there are bytes before the text.
pub proof fn law_markers_move_with_the_text(s: Seq<char>, base: nat, n: int)
    requires
        0 <= n < links::markers_of(s).len(),
    ensures
        ({
            let far = links::markers_from(s, 0, base);
            let near = links::markers_of(s);
            &&& far.len() == near.len()
            &&& far[n].start == base + near[n].start
            &&& far[n].end == base + near[n].end
            &&& far[n].feature == near[n].feature
        }),
{
    lemma_markers_move(s, 0, 0, base);
}

proof fn lemma_markers_move(s: Seq<char>, i: int, base: nat, by: nat)
    requires
        0 <= i,
    ensures
        ({
            let far = links::markers_from(s, i, base + by);
            let near = links::markers_from(s, i, base);
            &&& far.len() == near.len()
            &&& forall|n: int|
                0 <= n < near.len() ==> (#[trigger] far[n]) == (links::Marker {
                    start: near[n].start + by,
                    end: near[n].end + by,
                    feature: near[n].feature,
                })
        }),
    decreases s.len() - i,
{
    if i < s.len() {
        match links::link_at(s, i) {
            Some((j, k)) => {
                links::lemma_first_at(s, ']', i + 1);
                links::lemma_first_at(s, ')', j + 2);
                let len = text::utf8_len(s.subrange(i + 1, j));
                lemma_markers_move(s, k + 1, base + len, by);
                assert(base + len + by == base + by + len);
            },
            None => {
                let len = text::utf8_len(seq![s[i]]);
                lemma_markers_move(s, i + 1, base + len, by);
                assert(base + len + by == base + by + len);
            },
        }
    }
}

/// The levels of half a step are written 0.5, +0.5 and -0.5.
pub proof fn law_half_levels()
    ensures
        links::feature_of(seq!['0', '.', '5']) == Some(
            links::Feature::Stress(Stress { quarters: 2 }),
        ),
        links::feature_of(seq!['+', '0', '.', '5']) == Some(
            links::Feature::Stress(Stress { quarters: 2 }),
        ),
        links::feature_of(seq!['-', '0', '.', '5']) == Some(
            links::Feature::Stress(Stress { quarters: (-2) as i64 }),
        ),
{
    reveal_strlit("0.5");
    reveal_strlit("+0.5");
    reveal_strlit("-0.5");
    assert("0.5"@ =~= seq!['0', '.', '5']);
    assert("+0.5"@ =~= seq!['+', '0', '.', '5']);
    assert("-0.5"@ =~= seq!['-', '0', '.', '5']);
    lemma_dot_is_no_number(seq!['0', '.', '5'], 1);
    lemma_dot_is_no_number(seq!['+', '0', '.', '5'], 2);
    lemma_dot_is_no_number(seq!['-', '0', '.', '5'], 2);
    assert("-0.5"@[0] == '-');
    assert("+0.5"@[0] == '+');
}

proof fn lemma_dot_is_no_number(raw: Seq<char>, at: int)
    requires
        1 <= at < raw.len(),
        raw[at] < '0' || '9' < raw[at],
    ensures
        number::integer32(raw) is None,
{
    if number::is_signed(raw) {
        assert(raw.skip(1)[at - 1] == raw[at]);
        assert(!number::is_digit(raw.skip(1)[at - 1]));
    } else {
        assert(!number::is_digit(raw[at]));
    }
}

/// A feature that starts and ends with a slash is the pronunciation behind the first slash,
/// without the slashes at its end.
pub proof fn law_all_closing_slashes_go(raw: Seq<char>, e: int)
    requires
        1 <= e < raw.len(),
        raw[0] == '/',
        e == 1 || raw[e - 1] != '/',
        forall|i: int| e <= i < raw.len() ==> #[trigger] raw[i] == '/',
    ensures
        links::feature_of(raw) == Some(links::Feature::Phonemes(raw.subrange(1, e))),
{
    assert(raw.last() == raw[raw.len() - 1]);
    lemma_fenced_is_no_number(raw, '/');
    lemma_trimmed_to(raw.skip(1), '/', e - 1);
    assert(raw.skip(1).take(e - 1) =~= raw.subrange(1, e));
}

/// A feature that starts and ends with a hash sign is the flags behind the first one, without
/// the hash signs at their end.
pub proof fn law_all_closing_hashes_go(raw: Seq<char>, e: int)
    requires
        1 <= e < raw.len(),
        raw[0] == '#',
        e == 1 || raw[e - 1] != '#',
        forall|i: int| e <= i < raw.len() ==> #[trigger] raw[i] == '#',
    ensures
        links::feature_of(raw) == Some(links::Feature::NumFlags(raw.subrange(1, e))),
{
    assert(raw.last() == raw[raw.len() - 1]);
    lemma_fenced_is_no_number(raw, '#');
    lemma_trimmed_to(raw.skip(1), '#', e - 1);
    assert(raw.skip(1).take(e - 1) =~= raw.subrange(1, e));
}

proof fn lemma_trimmed_to(s: Seq<char>, c: char, e: int)
    requires
        0 <= e <= s.len(),
        e == 0 || s[e - 1] != c,
        forall|i: int| e <= i < s.len() ==> #[trigger] s[i] == c,
    ensures
        links::trimmed(s, c) == s.take(e),
    decreases s.len(),
{
    if s.len() > e {
        assert(s.last() == s[s.len() - 1]);
        lemma_trimmed_to(s.drop_last(), c, e);
        assert(s.drop_last().take(e) =~= s.take(e));
    } else {
        assert(s.take(e) =~= s);
    }
}

/// Any other feature asks for nothing: one that is not made of digits behind a sign or none,
/// is not one of the half levels, and neither starts and ends with a slash nor with a hash
/// sign.
pub proof fn law_other_features_ask_for_nothing(raw: Seq<char>)
    requires
        ({
            ||| raw.len() == 0
            ||| raw.len() == 1 && !('0' <= raw[0] <= '9')
            ||| !('0' <= raw[0] <= '9') && raw[0] != '+' && raw[0] != '-'
            ||| exists|i: int| 1 <= i < raw.len() && !('0' <= #[trigger] raw[i] <= '9')
        }),
        raw != seq!['0', '.', '5'],
        raw != seq!['+', '0', '.', '5'],
        raw != seq!['-', '0', '.', '5'],
        !(raw.len() > 1 && raw[0] == '/' && raw[raw.len() - 1] == '/'),
        !(raw.len() > 1 && raw[0] == '#' && raw[raw.len() - 1] == '#'),
    ensures
        links::feature_of(raw) is None,
{
    reveal_strlit("0.5");
    reveal_strlit("+0.5");
    reveal_strlit("-0.5");
    assert("0.5"@ =~= seq!['0', '.', '5']);
    assert("+0.5"@ =~= seq!['+', '0', '.', '5']);
    assert("-0.5"@ =~= seq!['-', '0', '.', '5']);
    if raw.len() > 1 && exists|i: int| 1 <= i < raw.len() && !('0' <= #[trigger] raw[i] <= '9') {
        let i = choose|i: int| 1 <= i < raw.len() && !('0' <= #[trigger] raw[i] <= '9');
        lemma_dot_is_no_number(raw, i);
    } else if raw.len() > 0 {
        assert(!number::is_digit(raw[0]));
    }
}

} // verus!
