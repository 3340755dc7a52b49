//! What each stress level makes of a pronunciation.

use crate::laws;
use crate::stress;
use crate::stress::Stress;
use crate::text;
use vstd::prelude::*;

verus! {

/// The stress marks are ˈ and ˌ, for primary and secondary stress.
pub proof fn law_two_stress_marks(c: char)
    ensures
        stress::is_mark(c) <==> c == 'ˈ' || c == 'ˌ',
        stress::PRIMARY == 'ˈ',
        stress::SECONDARY == 'ˌ',
{
}

/// Whether the first vowel of a pronunciation stands at `v`.
pub open spec fn opens_at(ps: Seq<char>, v: int) -> bool {
    &&& 0 <= v < ps.len()
    &&& laws::context::sounds_open(ps[v])
    &&& forall|j: int| 0 <= j < v ==> !laws::context::sounds_open(#[trigger] ps[j])
}

/// Whether a pronunciation holds neither ˈ nor ˌ.
pub open spec fn is_bare(ps: Seq<char>) -> bool {
    forall|j: int| 0 <= j < ps.len() ==> #[trigger] ps[j] != 'ˈ' && ps[j] != 'ˌ'
}

proof fn lemma_bare(s: Seq<char>)
    ensures
        text::without(text::without(s, 'ˈ'), 'ˌ') == s.filter(|c: char| c != 'ˈ' && c != 'ˌ'),
    decreases s.len(),
{
    reveal(Seq::filter);
    if s.len() > 0 {
        let t = s.drop_last();
        lemma_bare(t);
        assert(s =~= t.push(s.last()));
        text::lemma_without_push(t, 'ˈ', s.last());
        text::lemma_without_push(text::without(t, 'ˈ'), 'ˌ', s.last());
    }
}

proof fn lemma_no_secondary(s: Seq<char>)
    ensures
        text::without(s, 'ˌ') == s.filter(|c: char| c != 'ˌ'),
    decreases s.len(),
{
    reveal(Seq::filter);
    if s.len() > 0 {
        let t = s.drop_last();
        lemma_no_secondary(t);
        assert(s =~= t.push(s.last()));
        text::lemma_without_push(t, 'ˌ', s.last());
    }
}

/// Where no level is asked for, nothing changes.
pub proof fn law_no_level_changes_nothing(ps: Seq<char>)
    ensures
        stress::stressed(ps, None) == ps,
{
}

/// Below -1, just the symbols other than ˈ and ˌ are left.
pub proof fn law_below_minus_one(ps: Seq<char>, level: Stress)
    requires
        level.quarters < -4,
    ensures
        stress::stressed(ps, Some(level)) == ps.filter(|c: char| c != 'ˈ' && c != 'ˌ'),
{
    lemma_bare(ps);
}

/// At -1 always, and from -0.5 to 0 where there is a ˈ, every ˌ is taken out and then every ˈ
/// becomes ˌ.
pub proof fn law_stress_is_lowered(ps: Seq<char>, level: Stress)
    requires
        level.quarters == -4 || (-2 <= level.quarters <= 0 && ps.contains('ˈ')),
    ensures
        ({
            let r = stress::stressed(ps, Some(level));
            let kept = ps.filter(|c: char| c != 'ˌ');
            &&& r.len() == kept.len()
            &&& forall|i: int|
                0 <= i < r.len() ==> #[trigger] r[i] == (if kept[i] == 'ˈ' {
                    'ˌ'
                } else {
                    kept[i]
                })
        }),
{
    lemma_no_secondary(ps);
}

/// At 0, 0.5 and 1 a pronunciation without marks gets ˌ right before its first vowel.
pub proof fn law_stress_is_begun(ps: Seq<char>, level: Stress, v: int)
    requires
        level.quarters == 0 || level.quarters == 2 || level.quarters == 4,
        is_bare(ps),
        opens_at(ps, v),
    ensures
        stress::stressed(ps, Some(level)) == ps.take(v) + seq!['ˌ'] + ps.skip(v),
{
    lemma_mark_placed(ps, v);
    assert(!ps.contains('ˈ') && !ps.contains('ˌ'));
    laws::stress::law_stress_goes_before_first_vowel(ps, 'ˌ');
}

/// Above 1 a pronunciation without marks gets ˈ right before its first vowel.
pub proof fn law_stress_is_given(ps: Seq<char>, level: Stress, v: int)
    requires
        level.quarters > 4,
        is_bare(ps),
        opens_at(ps, v),
    ensures
        stress::stressed(ps, Some(level)) == ps.take(v) + seq!['ˈ'] + ps.skip(v),
{
    lemma_mark_placed(ps, v);
    assert(!ps.contains('ˈ') && !ps.contains('ˌ'));
    laws::stress::law_stress_goes_before_first_vowel(ps, 'ˈ');
}

proof fn lemma_mark_placed(ps: Seq<char>, v: int)
    requires
        opens_at(ps, v),
    ensures
        stress::has_vowel(ps),
        stress::lead(ps) == v,
    decreases ps.len(),
{
    assert(stress::is_vowel(ps[v]));
    if v > 0 {
        let rest = ps.drop_first();
        assert(!laws::context::sounds_open(ps[0]));
        assert forall|j: int| 0 <= j < v - 1 implies !laws::context::sounds_open(
            #[trigger] rest[j],
        ) by {
            assert(rest[j] == ps[j + 1]);
        }
        lemma_mark_placed(rest, v - 1);
    }
}

/// From 1 up, where there is ˌ and no ˈ, every ˌ becomes ˈ and nothing else changes.
pub proof fn law_stress_is_raised(ps: Seq<char>, level: Stress)
    requires
        level.quarters >= 4,
        ps.contains('ˌ'),
        !ps.contains('ˈ'),
    ensures
        ({
            let r = stress::stressed(ps, Some(level));
            &&& r.len() == ps.len()
            &&& forall|i: int|
                0 <= i < r.len() ==> #[trigger] r[i] == (if ps[i] == 'ˌ' {
                    'ˈ'
                } else {
                    ps[i]
                })
        }),
{
}

/// Nothing changes where there is a ˈ and the level is above 0; where there is a ˌ and no ˈ
/// and the level is from -0.5 up and below 1; where there is no mark and the level is neither
/// 0, nor 0.5, nor 1 or more; where there is no mark and no vowel and the level is above -1;
/// and strictly between -1 and -0.5.
pub proof fn law_stress_stays(ps: Seq<char>, level: Stress)
    requires
        ({
            let q = level.quarters;
            ||| ps.contains('ˈ') && q > 0
            ||| ps.contains('ˌ') && !ps.contains('ˈ') && -4 < q < 4
            ||| is_bare(ps) && -4 < q < 4 && q != 0 && q != 2
            ||| is_bare(ps) && q > -4 && forall|j: int|
                0 <= j < ps.len() ==> !laws::context::sounds_open(#[trigger] ps[j])
            ||| q == -3
        }),
    ensures
        stress::stressed(ps, Some(level)) == ps,
{
    if is_bare(ps) {
        assert(!ps.contains('ˈ') && !ps.contains('ˌ'));
        if forall|j: int| 0 <= j < ps.len() ==> !laws::context::sounds_open(#[trigger] ps[j]) {
            assert forall|j: int| 0 <= j < ps.len() implies !stress::is_vowel(#[trigger] ps[j]) by {
                assert(!laws::context::sounds_open(ps[j]));
            }
        }
    }
}

} // verus!
