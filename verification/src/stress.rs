//! Stress marks in a phoneme string: stripping, demoting, promoting and placing them.

use crate::text;
use vstd::prelude::*;

verus! {

/// The mark of primary stress.
pub const PRIMARY: char = 'ˈ';

/// The mark of secondary stress.
pub const SECONDARY: char = 'ˌ';

/// How strongly a word is stressed, in quarters.
///
/// The engine itself only makes whole and half levels. A quarter stands for every
/// level strictly between two half levels, since no rule tells those apart.
#[derive(Debug, Clone, Copy, PartialEq, Eq, Structural)]
pub struct Stress {
    pub quarters: i64,
}

impl Stress {
    /// The whole level `n`.
    pub fn whole(n: i32) -> (s: Self)
        ensures
            s.quarters == 4 * n,
    {
        Stress { quarters: 4 * (n as i64) }
    }

    /// The level of `n` halves.
    pub fn halves(n: i32) -> (s: Self)
        ensures
            s.quarters == 2 * n,
    {
        Stress { quarters: 2 * (n as i64) }
    }
}

/// Whether a phoneme symbol is a vowel.
pub open spec fn is_vowel(c: char) -> bool {
    ||| c == 'A' || c == 'I' || c == 'O' || c == 'Q' || c == 'W' || c == 'Y'
    ||| c == 'a' || c == 'i' || c == 'u'
    ||| c == 'æ' || c == 'ɑ' || c == 'ɒ' || c == 'ɔ' || c == 'ə' || c == 'ɛ' || c == 'ɜ'
    ||| c == 'ɪ' || c == 'ʊ' || c == 'ʌ' || c == 'ᵻ'
}

/// Whether a phoneme symbol is a consonant.
pub open spec fn is_consonant(c: char) -> bool {
    ||| c == 'b' || c == 'd' || c == 'f' || c == 'h' || c == 'j' || c == 'k' || c == 'l'
    ||| c == 'm' || c == 'n' || c == 'p' || c == 's' || c == 't' || c == 'v' || c == 'w'
    ||| c == 'z' || c == 'ð' || c == 'ŋ' || c == 'ɡ' || c == 'ɹ' || c == 'ɾ' || c == 'ʃ'
    ||| c == 'ʒ' || c == 'ʤ' || c == 'ʧ' || c == 'θ'
}

/// Whether a phoneme symbol is a stress mark.
pub open spec fn is_mark(c: char) -> bool {
    c == PRIMARY || c == SECONDARY
}

/// Whether a phoneme string holds a vowel.
pub open spec fn has_vowel(s: Seq<char>) -> bool {
    exists|i: int| 0 <= i < s.len() && is_vowel(#[trigger] s[i])
}

/// Tells a vowel symbol.
pub fn vowel(c: char) -> (r: bool)
    ensures
        r == is_vowel(c),
{
    c == 'A' || c == 'I' || c == 'O' || c == 'Q' || c == 'W' || c == 'Y' || c == 'a' || c == 'i'
        || c == 'u' || c == 'æ' || c == 'ɑ' || c == 'ɒ' || c == 'ɔ' || c == 'ə' || c == 'ɛ' || c
        == 'ɜ' || c == 'ɪ' || c == 'ʊ' || c == 'ʌ' || c == 'ᵻ'
}

/// Tells a consonant symbol.
pub fn consonant(c: char) -> (r: bool)
    ensures
        r == is_consonant(c),
{
    c == 'b' || c == 'd' || c == 'f' || c == 'h' || c == 'j' || c == 'k' || c == 'l' || c == 'm'
        || c == 'n' || c == 'p' || c == 's' || c == 't' || c == 'v' || c == 'w' || c == 'z' || c
        == 'ð' || c == 'ŋ' || c == 'ɡ' || c == 'ɹ' || c == 'ɾ' || c == 'ʃ' || c == 'ʒ' || c == 'ʤ'
        || c == 'ʧ' || c == 'θ'
}

/// How many symbols stand before the first vowel; all of them where there is none.
pub open spec fn lead(s: Seq<char>) -> nat
    decreases s.len(),
{
    if s.len() == 0 || is_vowel(s[0]) {
        0
    } else {
        1 + lead(s.drop_first())
    }
}

/// The stress marks of `s`, in order.
pub open spec fn marks_of(s: Seq<char>) -> Seq<char> {
    s.filter(|c: char| is_mark(c))
}

/// What is left of `s` without its stress marks.
pub open spec fn unmarked(s: Seq<char>) -> Seq<char> {
    s.filter(|c: char| !is_mark(c))
}

/// `s` with every stress mark moved to stand right before the next vowel. Marks with no
/// vowel behind them stay where they are.
pub open spec fn restressed(s: Seq<char>) -> Seq<char>
    decreases s.len(),
{
    let v = lead(s) as int;
    if v >= s.len() {
        s
    } else {
        let run = s.take(v);
        unmarked(run) + marks_of(run) + seq![s[v]] + restressed(s.skip(v + 1))
    }
}

/// `ps` brought to the given stress level.
///
/// Below -1 all marks go. At -1, and from -0.5 to 0 where there is primary stress, the
/// primary marks become secondary ones and the old secondary ones go. At 0, 0.5 and 1 an
/// unmarked string with a vowel gets secondary stress on its first vowel. From 1 up,
/// secondary marks become primary where there is no primary one, and above 1 an unmarked
/// string with a vowel gets primary stress on its first vowel. Otherwise nothing changes.
pub open spec fn stressed(ps: Seq<char>, stress: Option<Stress>) -> Seq<char> {
    match stress {
        None => ps,
        Some(s) => {
            let q = s.quarters;
            let primary = ps.contains(PRIMARY);
            let secondary = ps.contains(SECONDARY);
            if q < -4 {
                text::without(text::without(ps, PRIMARY), SECONDARY)
            } else if q == -4 || (-2 <= q <= 0 && primary) {
                text::replaced(text::without(ps, SECONDARY), PRIMARY, SECONDARY)
            } else if (q == 0 || q == 2 || q == 4) && !primary && !secondary {
                if has_vowel(ps) {
                    restressed(seq![SECONDARY] + ps)
                } else {
                    ps
                }
            } else if q >= 4 && !primary && secondary {
                text::replaced(ps, SECONDARY, PRIMARY)
            } else if q > 4 && !primary && !secondary {
                if has_vowel(ps) {
                    restressed(seq![PRIMARY] + ps)
                } else {
                    ps
                }
            } else {
                ps
            }
        },
    }
}

/// Whether a phoneme string holds a vowel.
pub fn any_vowel(ps: &str) -> (r: bool)
    ensures
        r == has_vowel(ps@),
{
    for c in it: ps.chars()
        invariant
            it.seq() == ps@,
            forall|k: int| 0 <= k < it.index() ==> !is_vowel(#[trigger] ps@[k]),
    {
        if vowel(c) {
            assert(is_vowel(ps@[it.index()]));
            return true;
        }
    }
    false
}

/// Appends the symbols from `from` up to `to` that are marks, or those that are not.
fn push_kind(out: &mut String, v: &Vec<char>, from: usize, to: usize, marks: bool)
    requires
        from <= to <= v@.len(),
    ensures
        marks ==> final(out)@ == old(out)@ + marks_of(v@.subrange(from as int, to as int)),
        !marks ==> final(out)@ == old(out)@ + unmarked(v@.subrange(from as int, to as int)),
{
    let mut i: usize = from;
    let ghost start = out@;
    proof {
        reveal(Seq::filter);
        assert(v@.subrange(from as int, from as int) =~= Seq::<char>::empty());
        assert(out@ =~= start + Seq::<char>::empty());
    }
    while i < to
        invariant
            from <= i <= to <= v@.len(),
            marks ==> out@ == start + marks_of(v@.subrange(from as int, i as int)),
            !marks ==> out@ == start + unmarked(v@.subrange(from as int, i as int)),
        decreases to - i,
    {
        let c = v[i];
        proof {
            let run = v@.subrange(from as int, i as int);
            let longer = v@.subrange(from as int, i + 1);
            assert(longer.drop_last() =~= run);
            reveal(Seq::filter);
        }
        if (c == PRIMARY || c == SECONDARY) == marks {
            out.push(c);
        }
        i = i + 1;
        assert(marks ==> out@ =~= start + marks_of(v@.subrange(from as int, i as int)));
        assert(!marks ==> out@ =~= start + unmarked(v@.subrange(from as int, i as int)));
    }
}

/// Where the first vowel from `from` on stands, or the end.
fn next_vowel(v: &Vec<char>, from: usize) -> (i: usize)
    requires
        from <= v@.len(),
    ensures
        i == from + lead(v@.skip(from as int)),
        i <= v@.len(),
{
    let mut i: usize = from;
    while i < v.len() && !vowel(v[i])
        invariant
            from <= i <= v@.len(),
            lead(v@.skip(from as int)) == i - from + lead(v@.skip(i as int)),
        decreases v@.len() - i,
    {
        assert(v@.skip(i as int).drop_first() =~= v@.skip(i + 1));
        i = i + 1;
    }
    i
}

/// Moves every stress mark to stand right before the next vowel.
pub fn restress(ps: &str) -> (r: String)
    ensures
        r@ == restressed(ps@),
{
    let v = text::chars_of(ps);
    let mut r = String::new();
    let mut start: usize = 0;
    assert(v@.skip(0) =~= v@);
    assert(r@ + restressed(v@) =~= restressed(v@));
    loop
        invariant
            start <= v@.len(),
            v@ == ps@,
            restressed(ps@) == r@ + restressed(v@.skip(start as int)),
        decreases v@.len() - start,
    {
        let i = next_vowel(&v, start);
        let ghost rest = v@.skip(start as int);
        let ghost before = r@;
        if i == v.len() {
            let tail = text::string_of(&v, start, i);
            r.append(tail.as_str());
            assert(tail@ =~= rest);
            return r;
        }
        push_kind(&mut r, &v, start, i, false);
        push_kind(&mut r, &v, start, i, true);
        r.push(v[i]);
        proof {
            let run = rest.take(lead(rest) as int);
            assert(run =~= v@.subrange(start as int, i as int));
            assert(rest.skip(lead(rest) as int + 1) =~= v@.skip(i + 1));
            assert(r@ + restressed(v@.skip(i + 1)) =~= before + restressed(rest));
        }
        start = i + 1;
    }
}

/// Brings a phoneme string to the given stress level.
pub fn apply_stress(ps: &str, stress: Option<Stress>) -> (r: String)
    ensures
        r@ == stressed(ps@, stress),
{
    let q: i64 = match stress {
        None => {
            return ps.to_owned();
        },
        Some(s) => s.quarters,
    };
    let primary = text::contains_char(ps, PRIMARY);
    let secondary = text::contains_char(ps, SECONDARY);
    if q < -4 {
        let bare = text::remove_char(ps, PRIMARY);
        text::remove_char(bare.as_str(), SECONDARY)
    } else if q == -4 || (-2 <= q && q <= 0 && primary) {
        let bare = text::remove_char(ps, SECONDARY);
        text::replace_char(bare.as_str(), PRIMARY, SECONDARY)
    } else if (q == 0 || q == 2 || q == 4) && !primary && !secondary {
        if !any_vowel(ps) {
            return ps.to_owned();
        }
        restress(with_mark(SECONDARY, ps).as_str())
    } else if q >= 4 && !primary && secondary {
        text::replace_char(ps, SECONDARY, PRIMARY)
    } else if q > 4 && !primary && !secondary {
        if !any_vowel(ps) {
            return ps.to_owned();
        }
        restress(with_mark(PRIMARY, ps).as_str())
    } else {
        ps.to_owned()
    }
}

/// `ps` behind a mark.
fn with_mark(mark: char, ps: &str) -> (r: String)
    ensures
        r@ == seq![mark] + ps@,
{
    let mut r = String::new();
    r.push(mark);
    r.append(ps);
    assert(r@ =~= seq![mark] + ps@);
    r
}

} // verus!
