//! What holds of stress levels.

use crate::stress;
use crate::stress::Stress;
use crate::text;
use vstd::prelude::*;

verus! {

/// Whether `s` holds no stress mark.
pub open spec fn is_unstressed(s: Seq<char>) -> bool {
    !s.contains(stress::PRIMARY) && !s.contains(stress::SECONDARY)
}

proof fn lemma_unmarked_concat(a: Seq<char>, b: Seq<char>)
    ensures
        stress::unmarked(a + b) == stress::unmarked(a) + stress::unmarked(b),
{
    Seq::filter_distributes_over_add(a, b, |c: char| !stress::is_mark(c));
}

proof fn lemma_unmarked_one(c: char)
    ensures
        stress::unmarked(seq![c]) == if stress::is_mark(c) {
            Seq::<char>::empty()
        } else {
            seq![c]
        },
{
    reveal(Seq::filter);
    assert(seq![c].drop_last() =~= Seq::<char>::empty());
    assert(stress::unmarked(Seq::<char>::empty()) =~= Seq::<char>::empty());
    assert(Seq::<char>::empty().push(c) =~= seq![c]);
}

/// What has no mark is its own rest.
proof fn lemma_unmarked_self(s: Seq<char>)
    requires
        is_unstressed(s),
    ensures
        stress::unmarked(s) == s,
        stress::marks_of(s) == Seq::<char>::empty(),
    decreases s.len(),
{
    reveal(Seq::filter);
    if s.len() > 0 {
        let t = s.drop_last();
        assert(s[s.len() - 1] == s.last());
        assert(!s.contains(s.last()) ==> false);
        assert(!stress::is_mark(s.last()));
        assert forall|c: char| t.contains(c) implies s.contains(c) by {
            let i = choose|i: int| 0 <= i < t.len() && t[i] == c;
            assert(s[i] == c);
        }
        lemma_unmarked_self(t);
        assert(t.push(s.last()) =~= s);
    }
}

/// The rest holds no mark, and taking the marks out twice is taking them out once.
proof fn lemma_unmarked_bare(s: Seq<char>)
    ensures
        is_unstressed(stress::unmarked(s)),
        stress::unmarked(stress::unmarked(s)) == stress::unmarked(s),
{
    let rest = stress::unmarked(s);
    assert forall|i: int| 0 <= i < rest.len() implies !stress::is_mark(#[trigger] rest[i]) by {
        s.lemma_filter_pred(|c: char| !stress::is_mark(c), i);
    }
    lemma_unmarked_self(rest);
}

/// Marks are no rest.
proof fn lemma_unmarked_marks(s: Seq<char>)
    ensures
        stress::unmarked(stress::marks_of(s)) == Seq::<char>::empty(),
    decreases s.len(),
{
    reveal(Seq::filter);
    if s.len() > 0 {
        let t = s.drop_last();
        lemma_unmarked_marks(t);
        if stress::is_mark(s.last()) {
            let m = stress::marks_of(t);
            assert(stress::marks_of(s) =~= m + seq![s.last()]);
            lemma_unmarked_concat(m, seq![s.last()]);
            lemma_unmarked_one(s.last());
        }
    }
}

/// Moving marks keeps the rest.
proof fn lemma_unmarked_restressed(s: Seq<char>)
    ensures
        stress::unmarked(stress::restressed(s)) == stress::unmarked(s),
    decreases s.len(),
{
    let v = stress::lead(s) as int;
    if v < s.len() {
        let run = s.take(v);
        let one = seq![s[v]];
        let tail = s.skip(v + 1);
        lemma_unmarked_restressed(tail);
        lemma_unmarked_bare(run);
        lemma_unmarked_marks(run);
        let a = stress::unmarked(run);
        let b = stress::marks_of(run);
        lemma_unmarked_concat(a, b);
        lemma_unmarked_concat(a + b, one);
        lemma_unmarked_concat(a + b + one, stress::restressed(tail));
        assert(s =~= run + one + tail);
        lemma_unmarked_concat(run, one);
        lemma_unmarked_concat(run + one, tail);
        assert(stress::unmarked(a) + stress::unmarked(b) =~= stress::unmarked(run));
    }
}

proof fn lemma_unmarked_without(s: Seq<char>, c: char)
    requires
        stress::is_mark(c),
    ensures
        stress::unmarked(text::without(s, c)) == stress::unmarked(s),
    decreases s.len(),
{
    reveal(Seq::filter);
    if s.len() > 0 {
        let t = s.drop_last();
        lemma_unmarked_without(t, c);
        assert(s =~= t.push(s.last()));
        text::lemma_without_push(t, c, s.last());
        if s.last() != c {
            let w = text::without(t, c);
            assert(text::without(s, c) =~= w + seq![s.last()]);
            lemma_unmarked_concat(w, seq![s.last()]);
            lemma_unmarked_concat(t, seq![s.last()]);
            assert(s =~= t + seq![s.last()]);
        }
    }
}

proof fn lemma_unmarked_replaced(s: Seq<char>, from: char, to: char)
    requires
        stress::is_mark(from),
        stress::is_mark(to),
    ensures
        stress::unmarked(text::replaced(s, from, to)) == stress::unmarked(s),
    decreases s.len(),
{
    reveal(Seq::filter);
    if s.len() > 0 {
        let t = s.drop_last();
        lemma_unmarked_replaced(t, from, to);
        assert(text::replaced(s, from, to).drop_last() =~= text::replaced(t, from, to));
    }
}

/// Taking both marks out leaves the rest.
proof fn lemma_both_out(s: Seq<char>)
    ensures
        text::without(text::without(s, stress::PRIMARY), stress::SECONDARY) == stress::unmarked(s),
    decreases s.len(),
{
    reveal(Seq::filter);
    if s.len() > 0 {
        let t = s.drop_last();
        lemma_both_out(t);
        assert(s =~= t.push(s.last()));
        text::lemma_without_push(t, stress::PRIMARY, s.last());
        text::lemma_without_push(
            text::without(t, stress::PRIMARY),
            stress::SECONDARY,
            s.last(),
        );
    }
}

/// Whatever the level, stress changes nothing but stress marks: the other symbols stay, in
/// their order.
pub proof fn law_stress_keeps_symbols(ps: Seq<char>, level: Option<Stress>)
    ensures
        stress::unmarked(stress::stressed(ps, level)) == stress::unmarked(ps),
{
    if let Some(s) = level {
        let q = s.quarters;
        let primary = ps.contains(stress::PRIMARY);
        let secondary = ps.contains(stress::SECONDARY);
        if q < -4 {
            lemma_both_out(ps);
            lemma_unmarked_bare(ps);
        } else if q == -4 || (-2 <= q <= 0 && primary) {
            lemma_unmarked_without(ps, stress::SECONDARY);
            lemma_unmarked_replaced(
                text::without(ps, stress::SECONDARY),
                stress::PRIMARY,
                stress::SECONDARY,
            );
        } else if (q == 0 || q == 2 || q == 4) && !primary && !secondary {
            lemma_mark_in_front(stress::SECONDARY, ps);
        } else if q >= 4 && !primary && secondary {
            lemma_unmarked_replaced(ps, stress::SECONDARY, stress::PRIMARY);
        } else if q > 4 && !primary && !secondary {
            lemma_mark_in_front(stress::PRIMARY, ps);
        }
    }
}

/// A mark put in front does not change the rest, wherever it moves.
proof fn lemma_mark_in_front(mark: char, ps: Seq<char>)
    requires
        stress::is_mark(mark),
    ensures
        stress::unmarked(stress::restressed(seq![mark] + ps)) == stress::unmarked(ps),
{
    lemma_unmarked_restressed(seq![mark] + ps);
    lemma_unmarked_concat(seq![mark], ps);
    lemma_unmarked_one(mark);
    assert(Seq::<char>::empty() + stress::unmarked(ps) =~= stress::unmarked(ps));
}

/// A level below -1 takes every stress mark away and leaves the rest.
pub proof fn law_low_level_strips_stress(ps: Seq<char>, level: Stress)
    requires
        level.quarters < -4,
    ensures
        is_unstressed(stress::stressed(ps, Some(level))),
        stress::stressed(ps, Some(level)) == stress::unmarked(ps),
{
    lemma_both_out(ps);
    lemma_unmarked_bare(ps);
}

proof fn lemma_no_vowel_before(s: Seq<char>)
    ensures
        stress::lead(s) <= s.len(),
        stress::lead(s) < s.len() ==> stress::is_vowel(s[stress::lead(s) as int]),
        stress::lead(s) < s.len() <==> stress::has_vowel(s),
        forall|i: int| 0 <= i < stress::lead(s) ==> !stress::is_vowel(#[trigger] s[i]),
    decreases s.len(),
{
    if s.len() > 0 && !stress::is_vowel(s[0]) {
        let t = s.drop_first();
        lemma_no_vowel_before(t);
        assert forall|i: int| 0 <= i < stress::lead(s) implies !stress::is_vowel(
            #[trigger] s[i],
        ) by {
            if i > 0 {
                assert(s[i] == t[i - 1]);
            }
        }
        if stress::has_vowel(s) {
            let i = choose|i: int| 0 <= i < s.len() && stress::is_vowel(#[trigger] s[i]);
            assert(stress::is_vowel(t[i - 1]));
        }
    }
}

/// Without marks there is nothing to move.
proof fn lemma_restressed_self(s: Seq<char>)
    requires
        is_unstressed(s),
    ensures
        stress::restressed(s) == s,
    decreases s.len(),
{
    let v = stress::lead(s) as int;
    if v < s.len() {
        let run = s.take(v);
        let tail = s.skip(v + 1);
        assert forall|c: char| run.contains(c) implies s.contains(c) by {
            let i = choose|i: int| 0 <= i < run.len() && run[i] == c;
            assert(s[i] == c);
        }
        assert forall|c: char| tail.contains(c) implies s.contains(c) by {
            let i = choose|i: int| 0 <= i < tail.len() && tail[i] == c;
            assert(s[v + 1 + i] == c);
        }
        lemma_unmarked_self(run);
        lemma_restressed_self(tail);
        assert(run + Seq::<char>::empty() + seq![s[v]] + tail =~= s);
    }
}

/// Stress put on an unmarked pronunciation stands right before its first vowel.
pub proof fn law_stress_goes_before_first_vowel(ps: Seq<char>, mark: char)
    requires
        stress::is_mark(mark),
        is_unstressed(ps),
        stress::has_vowel(ps),
    ensures
        stress::restressed(seq![mark] + ps) == ps.take(stress::lead(ps) as int) + seq![mark]
            + ps.skip(stress::lead(ps) as int),
{
    let s = seq![mark] + ps;
    let v = stress::lead(ps) as int;
    lemma_no_vowel_before(ps);
    assert(s.drop_first() =~= ps);
    assert(!stress::is_vowel(mark));
    assert(stress::lead(s) == v + 1);
    let run = s.take(v + 1);
    let before = ps.take(v);
    assert(run =~= seq![mark] + before);
    assert forall|c: char| before.contains(c) implies ps.contains(c) by {
        let i = choose|i: int| 0 <= i < before.len() && before[i] == c;
        assert(ps[i] == c);
    }
    lemma_unmarked_self(before);
    lemma_unmarked_concat(seq![mark], before);
    lemma_unmarked_one(mark);
    assert(stress::unmarked(run) =~= before);
    assert(stress::marks_of(run) =~= seq![mark]) by {
        Seq::filter_distributes_over_add(seq![mark], before, |c: char| stress::is_mark(c));
        reveal(Seq::filter);
        assert(seq![mark].drop_last() =~= Seq::<char>::empty());
        assert(stress::marks_of(seq![mark]) =~= seq![mark]);
        assert(seq![mark] + Seq::<char>::empty() =~= seq![mark]);
    }
    let tail = s.skip(v + 2);
    assert(tail =~= ps.skip(v + 1));
    assert forall|c: char| tail.contains(c) implies ps.contains(c) by {
        let i = choose|i: int| 0 <= i < tail.len() && tail[i] == c;
        assert(ps[v + 1 + i] == c);
    }
    lemma_restressed_self(tail);
    assert(s[v + 1] == ps[v]);
    assert(before + seq![mark] + seq![ps[v]] + tail =~= before + seq![mark] + ps.skip(v));
}

/// A level above 1 gives a pronunciation primary stress, if it has a vowel or any stress to
/// raise.
pub proof fn law_high_level_gives_primary_stress(ps: Seq<char>, level: Stress)
    requires
        level.quarters > 4,
        stress::has_vowel(ps) || !is_unstressed(ps),
    ensures
        stress::stressed(ps, Some(level)).contains(stress::PRIMARY),
{
    if ps.contains(stress::PRIMARY) {
    } else if ps.contains(stress::SECONDARY) {
        let i = choose|i: int| 0 <= i < ps.len() && ps[i] == stress::SECONDARY;
        assert(text::replaced(ps, stress::SECONDARY, stress::PRIMARY)[i] == stress::PRIMARY);
    } else {
        law_stress_goes_before_first_vowel(ps, stress::PRIMARY);
        lemma_no_vowel_before(ps);
        let v = stress::lead(ps) as int;
        let r = ps.take(v) + seq![stress::PRIMARY] + ps.skip(v);
        assert(r[v] == stress::PRIMARY);
    }
}

/// A level of -1, or from -0.5 to 0, leaves no primary stress.
pub proof fn law_weak_level_leaves_no_primary_stress(ps: Seq<char>, level: Stress)
    requires
        level.quarters == -4 || -2 <= level.quarters <= 0,
    ensures
        !stress::stressed(ps, Some(level)).contains(stress::PRIMARY),
{
    let r = stress::stressed(ps, Some(level));
    let bare = text::without(ps, stress::SECONDARY);
    if level.quarters == -4 || ps.contains(stress::PRIMARY) {
        assert forall|i: int| 0 <= i < r.len() implies #[trigger] r[i] != stress::PRIMARY by {
            assert(r == text::replaced(bare, stress::PRIMARY, stress::SECONDARY));
        }
    } else if level.quarters == 0 && is_unstressed(ps) && stress::has_vowel(ps) {
        law_stress_goes_before_first_vowel(ps, stress::SECONDARY);
        lemma_no_vowel_before(ps);
        let v = stress::lead(ps) as int;
        assert forall|i: int| 0 <= i < r.len() implies #[trigger] r[i] != stress::PRIMARY by {
            if i < v {
                assert(r[i] == ps[i]);
            } else if i > v {
                assert(r[i] == ps[i - 1]);
            }
        }
    }
}

/// The vowels and the stress marks of `s`, in order.
pub open spec fn landmarks(s: Seq<char>) -> Seq<char> {
    s.filter(|c: char| stress::is_vowel(c) || stress::is_mark(c))
}

/// Whether between every stress mark and the next vowel behind it there are only marks.
pub open spec fn is_settled(s: Seq<char>) -> bool {
    forall|i: int, k: int|
        0 <= i < s.len() && stress::is_mark(#[trigger] s[i]) && stress::has_vowel(s.skip(i)) && i
            <= k < i + stress::lead(s.skip(i)) ==> stress::is_mark(#[trigger] s[k])
}

/// Marks and rest together are the whole.
proof fn lemma_parts_multiset(s: Seq<char>)
    ensures
        s.to_multiset() == stress::unmarked(s).to_multiset().add(
            stress::marks_of(s).to_multiset(),
        ),
        stress::unmarked(s).len() + stress::marks_of(s).len() == s.len(),
    decreases s.len(),
{
    broadcast use vstd::seq_lib::group_to_multiset_ensures;

    let u = stress::unmarked(s);
    let m = stress::marks_of(s);
    reveal(Seq::filter);
    if s.len() == 0 {
        assert(s.to_multiset() =~= u.to_multiset().add(m.to_multiset()));
    } else {
        let t = s.drop_last();
        let c = s.last();
        lemma_parts_multiset(t);
        assert(s =~= t.push(c));
        assert(s.to_multiset() =~= t.to_multiset().insert(c));
        if stress::is_mark(c) {
            assert(m == stress::marks_of(t).push(c));
        } else {
            assert(u == stress::unmarked(t).push(c));
        }
        assert(s.to_multiset() =~= u.to_multiset().add(m.to_multiset()));
    }
}

/// A filter that every item passes leaves all of them.
proof fn lemma_filter_all(s: Seq<char>, p: spec_fn(char) -> bool)
    requires
        forall|i: int| 0 <= i < s.len() ==> p(#[trigger] s[i]),
    ensures
        s.filter(p) == s,
    decreases s.len(),
{
    reveal(Seq::filter);
    if s.len() > 0 {
        let t = s.drop_last();
        assert(forall|i: int| 0 <= i < t.len() ==> t[i] == s[i]);
        lemma_filter_all(t, p);
        assert(p(s[s.len() - 1]));
        assert(t.push(s.last()) =~= s);
    }
}

/// A filter that no item passes leaves nothing.
proof fn lemma_filter_none(s: Seq<char>, p: spec_fn(char) -> bool)
    requires
        forall|i: int| 0 <= i < s.len() ==> !p(#[trigger] s[i]),
    ensures
        s.filter(p) == Seq::<char>::empty(),
    decreases s.len(),
{
    reveal(Seq::filter);
    if s.len() > 0 {
        let t = s.drop_last();
        assert(forall|i: int| 0 <= i < t.len() ==> t[i] == s[i]);
        lemma_filter_none(t, p);
        assert(!p(s[s.len() - 1]));
    }
}

/// Without vowels the landmarks are the marks.
proof fn lemma_landmarks_of_run(run: Seq<char>)
    requires
        !stress::has_vowel(run),
    ensures
        landmarks(run) == stress::marks_of(run),
    decreases run.len(),
{
    reveal(Seq::filter);
    if run.len() > 0 {
        let t = run.drop_last();
        assert(!stress::is_vowel(run[run.len() - 1]));
        if stress::has_vowel(t) {
            let i = choose|i: int| 0 <= i < t.len() && stress::is_vowel(#[trigger] t[i]);
            assert(stress::is_vowel(run[i]));
        }
        lemma_landmarks_of_run(t);
    }
}

/// The symbols of a part come from the whole.
proof fn lemma_filter_from(s: Seq<char>, p: spec_fn(char) -> bool)
    ensures
        forall|i: int| 0 <= i < s.filter(p).len() ==> s.contains(#[trigger] s.filter(p)[i]),
    decreases s.len(),
{
    reveal(Seq::filter);
    if s.len() > 0 {
        let t = s.drop_last();
        lemma_filter_from(t, p);
        assert forall|i: int| 0 <= i < s.filter(p).len() implies s.contains(
            #[trigger] s.filter(p)[i],
        ) by {
            if i < t.filter(p).len() {
                assert(s.filter(p)[i] == t.filter(p)[i]);
                let j = choose|j: int| 0 <= j < t.len() && t[j] == t.filter(p)[i];
                assert(s[j] == t[j]);
            } else {
                assert(s.filter(p)[i] == s[s.len() - 1]);
            }
        }
    }
}

/// The parts of a run without vowels.
proof fn lemma_run_parts(run: Seq<char>)
    requires
        !stress::has_vowel(run),
    ensures
        stress::unmarked(run).len() + stress::marks_of(run).len() == run.len(),
        !stress::has_vowel(stress::unmarked(run) + stress::marks_of(run)),
        forall|i: int|
            0 <= i < stress::marks_of(run).len() ==> stress::is_mark(
                #[trigger] stress::marks_of(run)[i],
            ),
        is_unstressed(stress::unmarked(run)),
        landmarks(run) == stress::marks_of(run),
        landmarks(stress::unmarked(run)) == Seq::<char>::empty(),
        landmarks(stress::marks_of(run)) == stress::marks_of(run),
        stress::marks_of(stress::marks_of(run)) == stress::marks_of(run),
        run.to_multiset() == (stress::unmarked(run) + stress::marks_of(run)).to_multiset(),
{
    let mark = |c: char| stress::is_mark(c);
    let rest = |c: char| !stress::is_mark(c);
    let seen = |c: char| stress::is_vowel(c) || stress::is_mark(c);
    let u = stress::unmarked(run);
    let m = stress::marks_of(run);
    lemma_parts_multiset(run);
    vstd::seq_lib::lemma_multiset_commutative(u, m);
    lemma_landmarks_of_run(run);
    lemma_unmarked_bare(run);
    lemma_filter_from(run, mark);
    lemma_filter_from(run, rest);
    assert forall|i: int| 0 <= i < m.len() implies stress::is_mark(#[trigger] m[i])
        && !stress::is_vowel(m[i]) by {
        run.lemma_filter_pred(mark, i);
        let j = choose|j: int| 0 <= j < run.len() && run[j] == m[i];
        assert(!stress::is_vowel(run[j]));
    }
    assert forall|i: int| 0 <= i < u.len() implies !stress::is_mark(#[trigger] u[i])
        && !stress::is_vowel(u[i]) by {
        run.lemma_filter_pred(rest, i);
        let j = choose|j: int| 0 <= j < run.len() && run[j] == u[i];
        assert(!stress::is_vowel(run[j]));
    }
    lemma_filter_all(m, mark);
    lemma_filter_all(m, seen);
    lemma_filter_none(u, seen);
    assert forall|i: int| 0 <= i < (u + m).len() implies !stress::is_vowel(
        #[trigger] (u + m)[i],
    ) by {
        if i < u.len() {
            assert((u + m)[i] == u[i]);
        } else {
            assert((u + m)[i] == m[i - u.len()]);
        }
    }
}

/// What a run without vowels, a vowel and the rest become.
proof fn lemma_restressed_parts(s: Seq<char>)
    requires
        stress::lead(s) < s.len(),
    ensures
        ({
            let v = stress::lead(s) as int;
            let run = s.take(v);
            let front = stress::unmarked(run) + stress::marks_of(run);
            let r = stress::restressed(s);
            &&& !stress::has_vowel(run)
            &&& stress::is_vowel(s[v])
            &&& s =~= run + seq![s[v]] + s.skip(v + 1)
            &&& r == front + seq![s[v]] + stress::restressed(s.skip(v + 1))
            &&& front.len() == v
            &&& r[v] == s[v]
            &&& r.take(v) == front
            &&& r.skip(v + 1) == stress::restressed(s.skip(v + 1))
            &&& stress::lead(r) == v
        }),
{
    let v = stress::lead(s) as int;
    let run = s.take(v);
    lemma_no_vowel_before(s);
    if stress::has_vowel(run) {
        let i = choose|i: int| 0 <= i < run.len() && stress::is_vowel(#[trigger] run[i]);
        assert(stress::is_vowel(s[i]));
    }
    lemma_run_parts(run);
    let front = stress::unmarked(run) + stress::marks_of(run);
    let rest = stress::restressed(s.skip(v + 1));
    let r = stress::restressed(s);
    assert(r == front + seq![s[v]] + rest);
    assert(r.take(v) =~= front);
    assert(r.skip(v + 1) =~= rest);
    assert(r[v] == s[v]);
    lemma_lead_is(r, v);
}

proof fn lemma_lead_is(s: Seq<char>, v: int)
    requires
        0 <= v < s.len(),
        stress::is_vowel(s[v]),
        !stress::has_vowel(s.take(v)),
    ensures
        stress::lead(s) == v,
{
    lemma_no_vowel_before(s);
    let l = stress::lead(s) as int;
    assert(stress::is_vowel(s[v]));
    if l < v {
        assert(stress::is_vowel(s.take(v)[l]));
    }
}

/// Moving the stress marks only moves them: the symbols stay the same ones, those that are no
/// marks keep their order, and so do vowels and marks among each other, so that every mark
/// still belongs to the vowel that was the next one behind it.
pub proof fn law_moving_marks_keeps_symbols(s: Seq<char>)
    ensures
        stress::restressed(s).len() == s.len(),
        stress::restressed(s).to_multiset() == s.to_multiset(),
        stress::unmarked(stress::restressed(s)) == stress::unmarked(s),
        landmarks(stress::restressed(s)) == landmarks(s),
    decreases s.len(),
{
    lemma_no_vowel_before(s);
    lemma_unmarked_restressed(s);
    if stress::lead(s) < s.len() {
        lemma_restressed_parts(s);
        let v = stress::lead(s) as int;
        let run = s.take(v);
        let one = seq![s[v]];
        let tail = s.skip(v + 1);
        let u = stress::unmarked(run);
        let m = stress::marks_of(run);
        let rest = stress::restressed(tail);
        law_moving_marks_keeps_symbols(tail);
        lemma_run_parts(run);
        let p = |c: char| stress::is_vowel(c) || stress::is_mark(c);
        Seq::filter_distributes_over_add(run + one, tail, p);
        Seq::filter_distributes_over_add(run, one, p);
        Seq::filter_distributes_over_add(u + m + one, rest, p);
        Seq::filter_distributes_over_add(u + m, one, p);
        Seq::filter_distributes_over_add(u, m, p);
        assert(Seq::<char>::empty() + m =~= m);
        assert(s == run + one + tail);
        vstd::seq_lib::lemma_multiset_commutative(run + one, tail);
        vstd::seq_lib::lemma_multiset_commutative(run, one);
        vstd::seq_lib::lemma_multiset_commutative(u + m + one, rest);
        vstd::seq_lib::lemma_multiset_commutative(u + m, one);
    }
}

/// Moved marks stand right before their vowel, with nothing but other marks between.
pub proof fn law_moved_marks_stand_before_their_vowel(s: Seq<char>)
    ensures
        is_settled(stress::restressed(s)),
    decreases s.len(),
{
    lemma_no_vowel_before(s);
    let r = stress::restressed(s);
    if stress::lead(s) < s.len() {
        lemma_restressed_parts(s);
        let v = stress::lead(s) as int;
        let run = s.take(v);
        let tail = s.skip(v + 1);
        let rest = stress::restressed(tail);
        let u = stress::unmarked(run);
        let m = stress::marks_of(run);
        lemma_run_parts(run);
        law_moved_marks_stand_before_their_vowel(tail);
        assert forall|i: int, k: int|
            0 <= i < r.len() && stress::is_mark(#[trigger] r[i]) && stress::has_vowel(r.skip(i))
                && i <= k < i + stress::lead(r.skip(i)) implies stress::is_mark(
            #[trigger] r[k],
        ) by {
            lemma_no_vowel_before(r.skip(i));
            if i < v {
                if i < u.len() {
                    assert(r[i] == u[i]);
                    assert(u.contains(u[i]));
                }
                let from = r.skip(i);
                assert(from[v - i] == r[v]);
                if stress::has_vowel(from.take(v - i)) {
                    let j = choose|j: int|
                        0 <= j < v - i && stress::is_vowel(#[trigger] from.take(v - i)[j]);
                    assert((u + m)[i + j] == from.take(v - i)[j]);
                    assert(stress::is_vowel((u + m)[i + j]));
                }
                lemma_lead_is(from, v - i);
                assert(r[k] == m[k - u.len()]);
            } else if i > v {
                assert(r.skip(i) =~= rest.skip(i - v - 1));
                assert(r[i] == rest[i - v - 1]);
                assert(r[k] == rest[k - v - 1]);
            }
        }
    } else {
        assert forall|i: int, k: int|
            0 <= i < r.len() && stress::is_mark(#[trigger] r[i]) && stress::has_vowel(r.skip(i))
                && i <= k < i + stress::lead(r.skip(i)) implies stress::is_mark(
            #[trigger] r[k],
        ) by {
            let j = choose|j: int|
                0 <= j < r.skip(i).len() && stress::is_vowel(#[trigger] r.skip(i)[j]);
            assert(stress::is_vowel(s[i + j]));
        }
    }
}

/// What stands behind the last vowel stays where it is, marks too.
pub proof fn law_marks_without_vowel_stay(s: Seq<char>)
    ensures
        forall|i: int|
            0 <= i < s.len() && !stress::has_vowel(s.skip(i)) ==> #[trigger] stress::restressed(
                s,
            )[i] == s[i],
    decreases s.len(),
{
    lemma_no_vowel_before(s);
    if stress::lead(s) < s.len() {
        lemma_restressed_parts(s);
        let v = stress::lead(s) as int;
        let r = stress::restressed(s);
        let tail = s.skip(v + 1);
        law_marks_without_vowel_stay(tail);
        law_moving_marks_keeps_symbols(tail);
        assert forall|i: int| 0 <= i < s.len() && !stress::has_vowel(s.skip(i)) implies (
        #[trigger] r[i]) == s[i] by {
            if i <= v {
                assert(s.skip(i)[v - i] == s[v]);
            } else {
                assert(tail.skip(i - v - 1) =~= s.skip(i));
                assert(r[i] == stress::restressed(tail)[i - v - 1]);
                assert(s[i] == tail[i - v - 1]);
            }
        }
    }
}

/// Moving the marks twice is moving them once.
pub proof fn law_moving_marks_twice(s: Seq<char>)
    ensures
        stress::restressed(stress::restressed(s)) == stress::restressed(s),
    decreases s.len(),
{
    lemma_no_vowel_before(s);
    if stress::lead(s) < s.len() {
        lemma_restressed_parts(s);
        let v = stress::lead(s) as int;
        let run = s.take(v);
        let u = stress::unmarked(run);
        let m = stress::marks_of(run);
        law_moving_marks_twice(s.skip(v + 1));
        lemma_run_parts(run);
        lemma_unmarked_concat(u, m);
        lemma_unmarked_bare(run);
        lemma_unmarked_marks(run);
        lemma_unmarked_self(u);
        Seq::filter_distributes_over_add(u, m, |c: char| stress::is_mark(c));
        assert(u + Seq::<char>::empty() =~= u);
        assert(Seq::<char>::empty() + m =~= m);
    }
}

} // verus!
