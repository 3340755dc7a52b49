//! Markup of the form `[text](feature)`: finding it, taking it out of a text, and what the
//! feature asks for.
//!
//! * `[hello](+2)`, `[hello](-1)`, `[hello](2)`: whole stress
//! * `[hello](0.5)`, `[hello](+0.5)`, `[hello](-0.5)`: half stress
//! * `[xyzzy](/həˈloʊ/)`: a pronunciation
//! * `[5](#cardinal#)`: flags for reading a number
//!
//! Any other feature is dropped.

use crate::number;
use crate::stress::Stress;
use crate::text;
use vstd::prelude::*;

verus! {

/// What a link asks of the text it marks.
#[derive(Debug, Clone, PartialEq)]
pub enum LinkFeature {
    Stress(Stress),
    Phonemes(String),
    NumFlags(String),
}

/// A link's feature, and the bytes of the text without markup that it marks.
#[derive(Debug, Clone)]
pub struct LinkMarker {
    pub byte_start: usize,
    pub byte_end: usize,
    pub feature: LinkFeature,
}

/// A feature's contents.
pub enum Feature {
    Stress(Stress),
    Phonemes(Seq<char>),
    NumFlags(Seq<char>),
}

/// A marker's contents.
pub struct Marker {
    pub start: int,
    pub end: int,
    pub feature: Feature,
}

impl View for LinkFeature {
    type V = Feature;

    open spec fn view(&self) -> Feature {
        match self {
            LinkFeature::Stress(s) => Feature::Stress(*s),
            LinkFeature::Phonemes(p) => Feature::Phonemes(p@),
            LinkFeature::NumFlags(f) => Feature::NumFlags(f@),
        }
    }
}

impl View for LinkMarker {
    type V = Marker;

    open spec fn view(&self) -> Marker {
        Marker {
            start: self.byte_start as int,
            end: self.byte_end as int,
            feature: self.feature@,
        }
    }
}

/// The contents of each marker of a list.
pub open spec fn marker_views(markers: Seq<LinkMarker>) -> Seq<Marker> {
    markers.map_values(|m: LinkMarker| m@)
}

/// `s` without the run of `c` at its end.
pub open spec fn trimmed(s: Seq<char>, c: char) -> Seq<char>
    decreases s.len(),
{
    if s.len() > 0 && s.last() == c {
        trimmed(s.drop_last(), c)
    } else {
        s
    }
}

/// Whether `raw` stands between two `c`.
pub open spec fn is_fenced(raw: Seq<char>, c: char) -> bool {
    raw.len() > 1 && raw[0] == c && raw.last() == c
}

/// What a link's second part asks for.
pub open spec fn feature_of(raw: Seq<char>) -> Option<Feature> {
    if number::integer32(raw) is Some {
        Some(Feature::Stress(Stress { quarters: (4 * number::integer32(raw)->0) as i64 }))
    } else if raw == "0.5"@ || raw == "+0.5"@ {
        Some(Feature::Stress(Stress { quarters: 2 }))
    } else if raw == "-0.5"@ {
        Some(Feature::Stress(Stress { quarters: (-2) as i64 }))
    } else if is_fenced(raw, '/') {
        Some(Feature::Phonemes(trimmed(raw.skip(1), '/')))
    } else if is_fenced(raw, '#') {
        Some(Feature::NumFlags(trimmed(raw.skip(1), '#')))
    } else {
        None
    }
}

/// A feature that may be missing.
pub open spec fn feature_view(f: Option<LinkFeature>) -> Option<Feature> {
    match f {
        Some(f) => Some(f@),
        None => None,
    }
}

/// What stands behind the first character, without the run of `c` at the end.
fn trim_fence(v: &Vec<char>, c: char) -> (r: String)
    requires
        v@.len() >= 1,
    ensures
        r@ == trimmed(v@.skip(1), c),
{
    let mut n: usize = v.len();
    let ghost body = v@.skip(1);
    assert(body.take(n - 1) =~= body);
    while n > 1 && v[n - 1] == c
        invariant
            1 <= n <= v@.len(),
            body == v@.skip(1),
            trimmed(body, c) == trimmed(body.take(n - 1), c),
        decreases n,
    {
        assert(body.take(n - 1).drop_last() =~= body.take(n - 2));
        n = n - 1;
    }
    assert(v@.subrange(1, n as int) =~= body.take(n - 1));
    text::string_of(v, 1, n)
}

/// Reads what a link's second part asks for.
pub fn parse_link_feature(raw: &str) -> (r: Option<LinkFeature>)
    ensures
        feature_view(r) == feature_of(raw@),
{
    if let Some(n) = number::parse_i32(raw) {
        return Some(LinkFeature::Stress(Stress::whole(n)));
    }
    if text::same(raw, "0.5") || text::same(raw, "+0.5") {
        return Some(LinkFeature::Stress(Stress::halves(1)));
    }
    if text::same(raw, "-0.5") {
        return Some(LinkFeature::Stress(Stress::halves(-1)));
    }
    let v = text::chars_of(raw);
    let n: usize = v.len();
    if n > 1 && v[0] == '/' && v[n - 1] == '/' {
        return Some(LinkFeature::Phonemes(trim_fence(&v, '/')));
    }
    if n > 1 && v[0] == '#' && v[n - 1] == '#' {
        return Some(LinkFeature::NumFlags(trim_fence(&v, '#')));
    }
    None
}

/// Where the first `c` from `from` on stands, or the end.
pub open spec fn first_at(s: Seq<char>, c: char, from: int) -> int
    decreases s.len() - from,
{
    if from >= s.len() {
        s.len() as int
    } else if s[from] == c {
        from
    } else {
        first_at(s, c, from + 1)
    }
}

pub proof fn lemma_first_at(s: Seq<char>, c: char, from: int)
    ensures
        first_at(s, c, from) <= s.len(),
        from <= s.len() ==> from <= first_at(s, c, from),
        0 <= from && first_at(s, c, from) < s.len() ==> s[first_at(s, c, from)] == c,
        forall|i: int| from <= i < first_at(s, c, from) && i < s.len() ==> s[i] != c,
    decreases s.len() - from,
{
    if from < s.len() && s[from] != c {
        lemma_first_at(s, c, from + 1);
    }
}

/// The link that starts at `i`: where its text's closing bracket and where its feature's
/// stand. The text is what comes before the first closing bracket, at least one character,
/// and a parenthesis must follow right behind.
pub open spec fn link_at(s: Seq<char>, i: int) -> Option<(int, int)> {
    let j = first_at(s, ']', i + 1);
    let k = first_at(s, ')', j + 2);
    if 0 <= i < s.len() && s[i] == '[' && i + 1 < j && j + 1 < s.len() && s[j + 1] == '(' && k
        < s.len() {
        Some((j, k))
    } else {
        None
    }
}

/// The text from `i` on without its markup: of each link only the text is left.
pub open spec fn plain_from(s: Seq<char>, i: int) -> Seq<char>
    decreases s.len() - i,
{
    if i >= s.len() {
        Seq::empty()
    } else {
        match link_at(s, i) {
            Some((j, k)) => {
                proof {
                    lemma_first_at(s, ')', j + 2);
                }
                s.subrange(i + 1, j) + plain_from(s, k + 1)
            },
            None => seq![s[i]] + plain_from(s, i + 1),
        }
    }
}

/// The markers of the links from `i` on, where `base` bytes of text without markup stand
/// before. A link whose feature asks for nothing leaves no marker.
pub open spec fn markers_from(s: Seq<char>, i: int, base: nat) -> Seq<Marker>
    decreases s.len() - i,
{
    if i >= s.len() {
        Seq::empty()
    } else {
        match link_at(s, i) {
            Some((j, k)) => {
                proof {
                    lemma_first_at(s, ')', j + 2);
                }
                let after = base + text::utf8_len(s.subrange(i + 1, j));
                let rest = markers_from(s, k + 1, after);
                match feature_of(s.subrange(j + 2, k)) {
                    Some(feature) => seq![Marker { start: base as int, end: after as int, feature }]
                        + rest,
                    None => rest,
                }
            },
            None => markers_from(s, i + 1, base + text::utf8_len(seq![s[i]])),
        }
    }
}

/// A text without its markup.
pub open spec fn plain_text(s: Seq<char>) -> Seq<char> {
    plain_from(s, 0)
}

/// The markers of a text's links.
pub open spec fn markers_of(s: Seq<char>) -> Seq<Marker> {
    markers_from(s, 0, 0)
}

/// Finds the first `c` from `from` on.
fn find_char(v: &Vec<char>, c: char, from: usize) -> (r: usize)
    requires
        from <= v@.len(),
    ensures
        r == first_at(v@, c, from as int),
        from <= r <= v@.len(),
{
    let mut i: usize = from;
    while i < v.len() && v[i] != c
        invariant
            from <= i <= v@.len(),
            first_at(v@, c, from as int) == first_at(v@, c, i as int),
        decreases v@.len() - i,
    {
        i = i + 1;
    }
    i
}

/// Finds the link that starts at `i`.
fn find_link(v: &Vec<char>, i: usize) -> (r: Option<(usize, usize)>)
    requires
        i < v@.len(),
    ensures
        match r {
            Some((j, k)) => {
                &&& link_at(v@, i as int) == Some((j as int, k as int))
                &&& i + 1 < j
                &&& j + 2 <= k < v@.len()
            },
            None => link_at(v@, i as int) is None,
        },
{
    let n: usize = v.len();
    if v[i] != '[' {
        return None;
    }
    let j = find_char(v, ']', i + 1);
    if j == i + 1 || j >= n - 1 {
        return None;
    }
    if v[j + 1] != '(' {
        return None;
    }
    let k = find_char(v, ')', j + 2);
    if k < n {
        Some((j, k))
    } else {
        None
    }
}

/// Takes the markup out of a text: the text that is left, and the markers of what the links
/// ask for.
pub fn strip_links(input: &str) -> (r: (String, Vec<LinkMarker>))
    ensures
        r.0@ == plain_text(input@),
        marker_views(r.1@) == markers_of(input@),
{
    let v = text::chars_of(input);
    let mut stripped = String::new();
    let mut markers: Vec<LinkMarker> = Vec::new();
    let mut i: usize = 0;
    assert(stripped@ + plain_from(v@, 0) =~= plain_from(v@, 0));
    assert(marker_views(markers@) + markers_from(v@, 0, 0) =~= markers_from(v@, 0, 0));
    while i < v.len()
        invariant
            i <= v@.len(),
            plain_text(v@) == stripped@ + plain_from(v@, i as int),
            markers_of(v@) == marker_views(markers@) + markers_from(
                v@,
                i as int,
                text::utf8_len(stripped@),
            ),
        decreases v@.len() - i,
    {
        let ghost before = stripped@;
        let ghost marked = marker_views(markers@);
        match find_link(&v, i) {
            Some((j, k)) => {
                let inner = text::string_of(&v, i + 1, j);
                let start: usize = text::byte_len(stripped.as_str());
                stripped.append(inner.as_str());
                let end: usize = text::byte_len(stripped.as_str());
                proof {
                    text::lemma_utf8_len_concat(before, inner@);
                    assert(stripped@ + plain_from(v@, k + 1) =~= before + plain_from(v@, i as int));
                }
                let raw = text::string_of(&v, j + 2, k);
                if let Some(feature) = parse_link_feature(raw.as_str()) {
                    let marker = LinkMarker { byte_start: start, byte_end: end, feature };
                    proof {
                        assert(marker_views(markers@.push(marker)) =~= marked.push(marker@));
                        assert(marked.push(marker@) + markers_from(v@, k + 1, end as nat) =~= marked
                            + markers_from(v@, i as int, start as nat));
                    }
                    markers.push(marker);
                }
                i = k + 1;
            },
            None => {
                let c = v[i];
                stripped.push(c);
                proof {
                    assert(before.push(c) =~= before + seq![c]);
                    text::lemma_utf8_len_concat(before, seq![c]);
                    assert(stripped@ + plain_from(v@, i + 1) =~= before + plain_from(v@, i as int));
                }
                i = i + 1;
            },
        }
    }
    assert(stripped@ + Seq::<char>::empty() =~= stripped@);
    assert(marker_views(markers@) + Seq::<Marker>::empty() =~= marker_views(markers@));
    (stripped, markers)
}

} // verus!
