//! What a caller gets from the operations of the library.

use crate::fallback::{Fallback, FallbackError};
use crate::g2p::{G2PError, Resources, G2P};
use crate::language::{Dictionary, Language};
use crate::laws;
use crate::lexicon;
use crate::lexicon::{Lexicon, PhonemeEntry, TokenContext};
use crate::links;
use crate::links::{LinkFeature, LinkMarker};
use crate::number;
use crate::sounds;
use crate::steps;
use crate::steps::Step;
use crate::stress;
use crate::stress::Stress;
use crate::text;
use crate::token;
use crate::token::MToken;
use crate::tokenize;
use crate::unicode;
use std::collections::HashMap;
use std::ops::Range;
use vstd::prelude::*;

verus! {

/// An s behind p, t, k, f or θ is s; behind s, z, ʃ, ʒ, ʧ or ʤ it is a vowel and z, which is ɪ in
/// British and ᵻ in American speech; behind any other sound it is z.
pub proof fn law_append_s(lex: &Lexicon, stem: &str, r: String)
    requires
        call_ensures(Lexicon::append_s, (lex, stem), r),
        stem@.len() > 0,
    ensures
        ({
            let c = stem@[stem@.len() - 1];
            let voiceless = c == 'p' || c == 't' || c == 'k' || c == 'f' || c == 'θ';
            let hissing = c == 's' || c == 'z' || c == 'ʃ' || c == 'ʒ' || c == 'ʧ' || c == 'ʤ';
            &&& voiceless ==> r@ == stem@ + seq!['s']
            &&& hissing && lex.lang == Language::EnglishGB ==> r@ == stem@ + seq!['ɪ', 'z']
            &&& hissing && lex.lang == Language::EnglishUS ==> r@ == stem@ + seq!['ᵻ', 'z']
            &&& !voiceless && !hissing ==> r@ == stem@ + seq!['z']
        }),
{
    laws::stems::law_s_by_last_sound(lex.lang, stem@);
}

/// An ed behind p, k, f, θ, ʃ, s or ʧ is t; behind d, and behind t, it is a vowel and d, and
/// American speech may flap the t; behind any other sound it is d.
pub proof fn law_append_ed(lex: &Lexicon, stem: &str, r: String)
    requires
        call_ensures(Lexicon::append_ed, (lex, stem), r),
        stem@.len() > 0,
    ensures
        ({
            let n = stem@.len();
            let c = stem@[n - 1];
            let voiceless = c == 'p' || c == 'k' || c == 'f' || c == 'θ' || c == 'ʃ' || c == 's'
                || c == 'ʧ';
            let us = lex.lang == Language::EnglishUS;
            let flap = us && n > 1 && laws::stems::flaps_t(stem@[n - 2]);
            &&& voiceless ==> r@ == stem@ + seq!['t']
            &&& !voiceless && c != 'd' && c != 't' ==> r@ == stem@ + seq!['d']
            &&& c == 'd' && !us ==> r@ == stem@ + seq!['ɪ', 'd']
            &&& c == 'd' && us ==> r@ == stem@ + seq!['ᵻ', 'd']
            &&& c == 't' && (!us || n == 1) ==> r@ == stem@ + seq!['ɪ', 'd']
            &&& c == 't' && flap ==> r@ == stem@.take(n - 1) + seq!['ɾ', 'ᵻ', 'd']
            &&& c == 't' && us && n > 1 && !flap ==> r@ == stem@ + seq!['ᵻ', 'd']
        }),
{
    laws::stems::law_ed_by_last_sound(lex.lang, stem@);
    if stem@.len() == 1 && stem@[0] == 't' {
        assert(stem@ =~= seq!['t']);
        assert(seq!['t', 'ɪ', 'd'] =~= stem@ + seq!['ɪ', 'd']);
    }
}

/// British speech has a form with ing exactly for the stems that end neither in ə nor in ː, and
/// it is the stem with ɪŋ behind it. American speech has one for every stem that has a sound,
/// and flaps a t.
pub proof fn law_append_ing(lex: &Lexicon, stem: &str, r: Option<String>)
    requires
        call_ensures(Lexicon::append_ing, (lex, stem), r),
        stem@.len() > 0,
    ensures
        ({
            let n = stem@.len();
            let c = stem@[n - 1];
            let gb = lex.lang == Language::EnglishGB;
            let flap = !gb && n > 1 && c == 't' && laws::stems::flaps_t(stem@[n - 2]);
            &&& r is Some <==> !gb || (c != 'ə' && c != 'ː')
            &&& r is Some && !flap ==> r->0@ == stem@ + seq!['ɪ', 'ŋ']
            &&& flap ==> r is Some && r->0@ == stem@.take(n - 1) + seq!['ɾ', 'ɪ', 'ŋ']
        }),
{
    laws::stems::law_ing_by_last_sound(lex.lang, stem@);
}

/// A tagged entry that does not tell the case that the next sound is not known, or that is
/// asked where it is known, gives the pronunciation of the word's tag; if it has none, that of
/// the tag's parent, VERB for VB, NOUN for NN, ADV for ADV and RB, ADJ for ADJ and JJ; the
/// default only if it has neither; and else nothing.
pub proof fn law_resolve_phonemes(
    lex: &Lexicon,
    entry: &PhonemeEntry,
    tag: &str,
    ctx: Option<&TokenContext>,
    r: Option<String>,
)
    requires
        call_ensures(Lexicon::resolve_phonemes, (lex, entry, tag, ctx), r),
        entry is Tagged,
        !entry->Tagged_0@.contains_key("None"@) || ctx is None || ctx->0.future_vowel is Some,
    ensures
        ({
            let m = entry->Tagged_0@;
            let verb = "VB"@.is_prefix_of(tag@) && m.contains_key("VERB"@) && m["VERB"@] is Some;
            let noun = "NN"@.is_prefix_of(tag@) && m.contains_key("NOUN"@) && m["NOUN"@] is Some;
            let adv = ("ADV"@.is_prefix_of(tag@) || "RB"@.is_prefix_of(tag@)) && m.contains_key(
                "ADV"@,
            ) && m["ADV"@] is Some;
            let adj = ("ADJ"@.is_prefix_of(tag@) || "JJ"@.is_prefix_of(tag@)) && m.contains_key(
                "ADJ"@,
            ) && m["ADJ"@] is Some;
            let own = m.contains_key(tag@) && m[tag@] is Some;
            let last = m.contains_key("DEFAULT"@) && m["DEFAULT"@] is Some;
            &&& own ==> r is Some && r->0@ == m[tag@]->0@
            &&& !own && verb ==> r is Some && r->0@ == m["VERB"@]->0@
            &&& !own && noun ==> r is Some && r->0@ == m["NOUN"@]->0@
            &&& !own && adv ==> r is Some && r->0@ == m["ADV"@]->0@
            &&& !own && adj ==> r is Some && r->0@ == m["ADJ"@]->0@
            &&& !own && !verb && !noun && !adv && !adj && last ==> r is Some && r->0@
                == m["DEFAULT"@]->0@
            &&& !own && !verb && !noun && !adv && !adj && !last ==> r is None
        }),
{
    laws::lexicon::law_tag_then_parent_then_default(entry->Tagged_0, tag@, ctx);
}

/// A plain entry gives its pronunciation, whatever the tag and the context.
pub proof fn law_resolve_plain_phonemes(
    lex: &Lexicon,
    entry: &PhonemeEntry,
    tag: &str,
    ctx: Option<&TokenContext>,
    r: Option<String>,
)
    requires
        call_ensures(Lexicon::resolve_phonemes, (lex, entry, tag, ctx), r),
        entry is Simple,
    ensures
        r is Some && r->0@ == entry->Simple_0@,
{
}

/// A token whose text starts with a, e, i, o or u, in either case, tells of a vowel; one that
/// starts with any other ASCII letter tells of a consonant; and the word to, in lower case,
/// tells of itself.
pub proof fn law_look_ahead(next: &MToken, r: TokenContext)
    requires
        call_ensures(sounds::look_ahead, (next,), r),
        next.text@.len() > 0,
    ensures
        ({
            let c = next.text@[0];
            let vowel = c == 'a' || c == 'e' || c == 'i' || c == 'o' || c == 'u' || c == 'A' || c
                == 'E' || c == 'I' || c == 'O' || c == 'U';
            &&& vowel ==> r.future_vowel == Some(true)
            &&& ('a' <= c <= 'z' || 'A' <= c <= 'Z') && !vowel ==> r.future_vowel == Some(false)
            &&& r.future_to <==> unicode::lowercase(next.text@) == seq!['t', 'o']
        }),
{
    reveal_strlit("to");
    assert("to"@ =~= seq!['t', 'o']);
}

/// Read before a token whose text starts with a, e, i, o or u, in either case, the word the is
/// ði; before any other ASCII letter it is ðə.
pub proof fn law_the_before_a_letter(
    lex: &Lexicon,
    word: &str,
    tag: &str,
    level: Option<Stress>,
    next: &MToken,
    ctx: TokenContext,
    r: Option<(String, i32)>,
)
    requires
        call_ensures(sounds::look_ahead, (next,), ctx),
        call_ensures(Lexicon::get_word, (lex, word, tag, level, Some(&ctx)), r),
        word@ == seq!['t', 'h', 'e'] || word@ == seq!['T', 'h', 'e'],
        next.text@.len() > 0,
        'a' <= next.text@[0] <= 'z' || 'A' <= next.text@[0] <= 'Z',
    ensures
        ({
            let c = next.text@[0];
            let vowel = c == 'a' || c == 'e' || c == 'i' || c == 'o' || c == 'u' || c == 'A' || c
                == 'E' || c == 'I' || c == 'O' || c == 'U';
            &&& vowel ==> (r matches Some((ps, _)) && ps@ == "ði"@)
            &&& !vowel ==> (r matches Some((ps, _)) && ps@ == "ðə"@)
        }),
{
    law_look_ahead(next, ctx);
    laws::special::law_word_the(*lex, word@, tag@, level, Some(&ctx));
    laws::lexicon::law_special_form_first(*lex, word@, tag@, level, Some(&ctx));
}

/// A word whose digits have the value `n` when commas are left out, with a sign or without, is
/// spoken as the words for just that number; if that needs more than 64 bits it stays as it is.
pub proof fn law_speak(word: &str, sign: Seq<char>, digits: Seq<char>, r: String)
    requires
        call_ensures(number::speak, (word,), r),
        laws::numbers::may_sign(sign),
        laws::numbers::is_written(digits),
        word@.filter(|c: char| c != ',') == sign + digits,
    ensures
        ({
            let n = laws::numbers::signed_value(sign, digits);
            &&& i64::MIN <= n <= i64::MAX ==> r@ == number::number_words(n as i64)
            &&& !(i64::MIN <= n <= i64::MAX) ==> r@ == word@
        }),
{
    laws::numbers::law_digits_write_their_value(word@, sign, digits);
}

/// The engine takes for numbers just those words, and converts them to the same words.
pub proof fn law_convert_number(
    g: &G2P,
    word: &str,
    sign: Seq<char>,
    digits: Seq<char>,
    counts: bool,
    r: String,
)
    requires
        call_ensures(G2P::is_number, (g, word), counts),
        call_ensures(G2P::convert_number, (g, word), r),
        laws::numbers::may_sign(sign),
        laws::numbers::is_written(digits),
        word@.filter(|c: char| c != ',') == sign + digits,
    ensures
        ({
            let n = laws::numbers::signed_value(sign, digits);
            &&& counts <==> i64::MIN <= n <= i64::MAX
            &&& i64::MIN <= n <= i64::MAX ==> r@ == number::number_words(n as i64)
            &&& !(i64::MIN <= n <= i64::MAX) ==> r@ == word@
        }),
{
    laws::numbers::law_digits_write_their_value(word@, sign, digits);
}

/// What the engine takes for no number it leaves as it is.
pub proof fn law_convert_no_number(g: &G2P, word: &str, counts: bool, r: String)
    requires
        call_ensures(G2P::is_number, (g, word), counts),
        call_ensures(G2P::convert_number, (g, word), r),
        !counts,
    ensures
        r@ == word@,
{
}

/// The vowels and the consonants among the sounds are told apart as the tables say.
pub proof fn law_sounds_are_told(c: char, r: bool)
    ensures
        call_ensures(stress::vowel, (c,), r) ==> (r <==> laws::context::sounds_open(c)),
        call_ensures(stress::consonant, (c,), r) ==> (r <==> laws::context::sounds_closed(c)),
        call_ensures(text::space, (c,), r) ==> (r <==> text::is_space(c)),
{
}

/// The parent of a tag in VB is VERB, in NN NOUN, in ADV and RB ADV, in ADJ and JJ ADJ; any
/// other tag is its own parent.
pub proof fn law_get_parent_tag(tag: &str, r: &str)
    requires
        call_ensures(Lexicon::get_parent_tag, (tag,), r),
    ensures
        "VB"@.is_prefix_of(tag@) ==> r@ == "VERB"@,
        "NN"@.is_prefix_of(tag@) ==> r@ == "NOUN"@,
        "ADV"@.is_prefix_of(tag@) || "RB"@.is_prefix_of(tag@) ==> r@ == "ADV"@,
        "ADJ"@.is_prefix_of(tag@) || "JJ"@.is_prefix_of(tag@) ==> r@ == "ADJ"@,
        !"VB"@.is_prefix_of(tag@) && !"NN"@.is_prefix_of(tag@) && !"ADV"@.is_prefix_of(tag@)
            && !"RB"@.is_prefix_of(tag@) && !"ADJ"@.is_prefix_of(tag@) && !"JJ"@.is_prefix_of(tag@)
            ==> r@ == tag@,
{
    laws::lexicon::law_parent_tags(tag@);
}

/// Whether an answer of the lexicon is the given reading.
pub open spec fn says(r: Option<(String, i32)>, reading: Option<(Seq<char>, i32)>) -> bool {
    match r {
        Some((ps, rating)) => reading == Some((ps@, rating)),
        None => reading is None,
    }
}

/// The lexicon's operations on a word return the readings that its laws speak of.
pub proof fn law_lexicon_answers(
    lex: &Lexicon,
    word: &str,
    tag: &str,
    level: Option<Stress>,
    ctx: Option<&TokenContext>,
    r: Option<(String, i32)>,
)
    ensures
        call_ensures(Lexicon::get_word, (lex, word, tag, level, ctx), r) ==> says(
            r,
            lex.pronounced(word@, tag@, level, ctx),
        ),
        call_ensures(Lexicon::get_special_case, (lex, word, tag, level, ctx), r) ==> says(
            r,
            lex.special(word@, tag@, level, ctx),
        ),
        call_ensures(Lexicon::lookup, (lex, word, tag, level, ctx), r) ==> says(
            r,
            lex.looked_up(word@, tag@, level, ctx),
        ),
        call_ensures(Lexicon::stem_s, (lex, word, tag, level, ctx), r) ==> says(
            r,
            lex.stemmed_s(word@, tag@, level, ctx),
        ),
        call_ensures(Lexicon::stem_ed, (lex, word, tag, level, ctx), r) ==> says(
            r,
            lex.stemmed_ed(word@, tag@, level, ctx),
        ),
        call_ensures(Lexicon::stem_ing, (lex, word, tag, level, ctx), r) ==> says(
            r,
            lex.stemmed_ing(word@, tag@, level, ctx),
        ),
        call_ensures(Lexicon::get_nnp, (lex, word), r) ==> says(
            r,
            lexicon::spelt(lex.golds@, word@),
        ),
{
}

/// Whether an answer that may be missing is the given one.
pub open spec fn is_text(r: Option<String>, s: Option<Seq<char>>) -> bool {
    match r {
        Some(t) => s == Some(t@),
        None => s is None,
    }
}

/// The lexicon finds the stems and casings that its laws speak of.
pub proof fn law_lexicon_finds(lex: &Lexicon, word: &str, tag: &str, r: Option<String>)
    ensures
        call_ensures(Lexicon::find_stem_s, (lex, word, tag), r)
            ==> is_text(r, lex.stem_of_s(word@)),
        call_ensures(Lexicon::find_stem_ed, (lex, word, tag), r) ==> is_text(
            r,
            lex.stem_of_ed(word@),
        ),
        call_ensures(Lexicon::find_stem_ing, (lex, word, tag), r) ==> is_text(
            r,
            lex.stem_of_ing(word@),
        ),
        call_ensures(Lexicon::case_variant, (word,), r) ==> is_text(r, lexicon::variant_of(word@)),
{
}

/// The lexicon says of a word whether it is known, whether any entry answers for it, and
/// whether a certain one does.
pub proof fn law_lexicon_tells(lex: &Lexicon, word: &str, tag: &str, r: bool)
    ensures
        call_ensures(Lexicon::is_known, (lex, word, tag), r) ==> (r <==> lex.knows(word@)),
        call_ensures(Lexicon::has, (lex, word), r) ==> (r <==> lexicon::entry_of(
            lex.golds@,
            word@,
        ) is Some || lexicon::entry_of(lex.silvers@, word@) is Some),
        call_ensures(Lexicon::in_gold, (lex, word), r) ==> (r <==> lexicon::entry_of(
            lex.golds@,
            word@,
        ) is Some),
{
}

/// Texts are brought to a stress level, and marks moved, as their laws say.
pub proof fn law_stress_is_applied(lex: &Lexicon, ps: &str, level: Option<Stress>, r: String)
    ensures
        call_ensures(Lexicon::apply_stress, (lex, ps, level), r) ==> r@ == stress::stressed(
            ps@,
            level,
        ),
        call_ensures(stress::apply_stress, (ps, level), r) ==> r@ == stress::stressed(ps@, level),
        call_ensures(stress::restress, (ps,), r) ==> r@ == stress::restressed(ps@),
        call_ensures(sounds::normalize, (ps,), r) ==> r@ == sounds::normalized(ps@),
        call_ensures(lexicon::capitalize, (ps,), r) ==> r@ == lexicon::capitalized(ps@),
{
}

/// Symbols are read, and first sounds found, as their laws say.
pub proof fn law_symbols_are_read(word: &str, unk: &str, r: String, s: Option<bool>)
    ensures
        call_ensures(sounds::read_symbol, (word, unk), r) ==> r@ == sounds::symbol_sound(
            word@,
            unk@,
        ),
        call_ensures(sounds::find_first_sound, (word,), s) ==> s == sounds::first_sound(word@),
{
}

/// Whether a link's feature is the given one.
pub open spec fn asks(r: Option<LinkFeature>, f: Option<links::Feature>) -> bool {
    match r {
        Some(LinkFeature::Stress(s)) => f == Some(links::Feature::Stress(s)),
        Some(LinkFeature::Phonemes(ps)) => f == Some(links::Feature::Phonemes(ps@)),
        Some(LinkFeature::NumFlags(flags)) => f == Some(links::Feature::NumFlags(flags@)),
        None => f is None,
    }
}

/// A link's feature is read as the laws of markup say.
pub proof fn law_features_are_read(raw: &str, r: Option<LinkFeature>)
    requires
        call_ensures(links::parse_link_feature, (raw,), r),
    ensures
        asks(r, links::feature_of(raw@)),
{
}

/// Whether markers are the given ones.
pub open spec fn mark(r: Seq<LinkMarker>, markers: Seq<links::Marker>) -> bool {
    &&& r.len() == markers.len()
    &&& forall|n: int|
        0 <= n < r.len() ==> {
            &&& (#[trigger] r[n]).byte_start == markers[n].start
            &&& r[n].byte_end == markers[n].end
            &&& asks(Some(r[n].feature), Some(markers[n].feature))
        }
}

/// The engine takes markup out of a text, and tells what it asks for, as the laws of markup
/// say.
pub proof fn law_markup_is_taken_out(g: &G2P, input: &str, r: (String, Vec<LinkMarker>))
    requires
        call_ensures(G2P::preprocess_links, (g, input), r) || call_ensures(
            links::strip_links,
            (input,),
            r,
        ),
    ensures
        r.0@ == links::plain_text(input@),
        mark(r.1@, links::markers_of(input@)),
{
    let views = links::marker_views(r.1@);
    assert(views == links::markers_of(input@));
    assert forall|n: int| 0 <= n < r.1@.len() implies {
        &&& (#[trigger] r.1@[n]).byte_start == views[n].start
        &&& r.1@[n].byte_end == views[n].end
        &&& asks(Some(r.1@[n].feature), Some(views[n].feature))
    } by {
        assert(views[n] == r.1@[n]@);
    }
}

/// The words of a text are the runs without white space of the text without markup; the map
/// that comes with them is empty.
pub proof fn law_preprocess(
    g: &G2P,
    input: &str,
    r: (String, Vec<String>, HashMap<usize, String>),
)
    requires
        call_ensures(G2P::preprocess, (g, input), r),
    ensures
        ({
            let plain = links::plain_text(input@);
            let spans = tokenize::word_spans(plain);
            &&& r.0@ == plain
            &&& r.1@.len() == spans.len()
            &&& forall|n: int|
                0 <= n < spans.len() ==> (#[trigger] r.1@[n])@ == plain.subrange(
                    spans[n].0,
                    spans[n].1,
                )
            &&& r.2@ == Map::<usize, String>::empty()
        }),
{
    let plain = links::plain_text(input@);
    let spans = tokenize::word_spans(plain);
    laws::pieces::law_words_are_runs(plain);
    let words = text::views(r.1@);
    assert(words.len() == r.1@.len());
    assert forall|n: int| 0 <= n < spans.len() implies (#[trigger] r.1@[n])@ == plain.subrange(
        spans[n].0,
        spans[n].1,
    ) by {
        assert(words[n] == r.1@[n]@);
        assert(text::words_from(plain, 0)[n] == words[n]);
    }
}

/// The engine cuts a text into the tokens that the laws speak of.
pub proof fn law_tokenize(g: &G2P, input: &str, r: Vec<MToken>)
    requires
        call_ensures(G2P::tokenize, (g, input), r),
    ensures
        r@.len() == tokenize::raw_tokens(input@).len(),
        forall|k: int|
            0 <= k < r@.len() ==> {
                let t = tokenize::raw_tokens(input@)[k];
                &&& (#[trigger] r@[k]).text@ == t.text
                &&& r@[k].tag@ == t.tag
                &&& r@[k].whitespace@ == t.whitespace
                &&& r@[k].phonemes is None
                &&& r@[k].extra.stress is None
                &&& r@[k].extra.num_flags@ == Seq::<char>::empty()
            },
{
    let views = token::token_views(r@);
    assert(views == tokenize::raw_tokens(input@));
    assert(views.len() == tokenize::token_spans(input@).len());
    assert forall|k: int| 0 <= k < r@.len() implies {
        let t = tokenize::raw_tokens(input@)[k];
        &&& (#[trigger] r@[k]).text@ == t.text
        &&& r@[k].tag@ == t.tag
        &&& r@[k].whitespace@ == t.whitespace
        &&& r@[k].phonemes is None
        &&& r@[k].extra.stress is None
        &&& r@[k].extra.num_flags@ == Seq::<char>::empty()
    } by {
        assert(views[k] == r@[k]@);
        laws::pieces::law_fresh_tokens(input@, k);
    }
}

/// With each token comes the range of bytes that it takes in the text.
pub proof fn law_tokenize_with_offsets(
    g: &G2P,
    input: &str,
    r: Vec<(MToken, Range<usize>)>,
    k: int,
)
    requires
        call_ensures(G2P::tokenize_with_offsets, (g, input), r),
        0 <= k < r@.len(),
    ensures
        ({
            let span = tokenize::token_spans(input@)[k];
            &&& r@.len() == tokenize::token_spans(input@).len()
            &&& 0 <= span.0 < span.1 <= input@.len()
            &&& r@[k].0.text@ == input@.subrange(span.0, span.1)
            &&& r@[k].0.tag@ == seq!['N', 'N']
            &&& r@[k].0.whitespace@ == seq![' ']
            &&& r@[k].1.start == vstd::utf8::encode_utf8(input@.take(span.0)).len()
            &&& r@[k].1.end == vstd::utf8::encode_utf8(input@.take(span.1)).len()
        }),
{
    let span = tokenize::token_spans(input@)[k];
    assert(tokenize::is_spanned(r@[k], input@, span));
    assert(tokenize::is_solid(input@, span));
    laws::pieces::law_fresh_tokens(input@, k);
    let v = r@[k].0@;
    assert(v.text == input@.subrange(span.0, span.1));
    assert(v == tokenize::raw_tokens(input@)[k]);
}

/// Reading a text gives one of the outcomes that the laws speak of: phonemes with tokens, or
/// the fallback's error.
pub proof fn law_g2p(g: &G2P, input: &str, r: Result<(String, Vec<MToken>), G2PError>)
    requires
        call_ensures(G2P::g2p, (g, input), r),
    ensures
        r matches Ok((out, tokens)) ==> g.outcome(
            input@,
            Ok((out@, tokens@.map_values(|t: MToken| t@))),
        ),
        r matches Err(G2PError::Fallback(e)) ==> g.outcome(input@, Err(e)),
{
}

/// A new engine has the dialect and the entries that it is given, half stress for capitalized
/// words and double stress for those in capitals, ❓ for the unknown, and no fallback.
pub proof fn law_new_engine(lang: Language, resources: Resources, g: G2P)
    requires
        call_ensures(G2P::new, (lang, resources), g),
    ensures
        g.lexicon.lang == lang,
        g.lexicon.cap_stresses.0.quarters == 2,
        g.lexicon.cap_stresses.1.quarters == 8,
        g.lexicon.golds@ == lexicon::word_map(resources.golds@),
        g.lexicon.silvers@ == lexicon::word_map(resources.silvers@),
        g.unk@ == seq!['❓'],
        g.services == resources.services,
        g.fallback is None,
{
    reveal_strlit("❓");
    assert("❓"@ =~= seq!['❓']);
}

/// An engine with a fallback is a new one with that.
pub proof fn law_new_engine_with_fallback(
    lang: Language,
    resources: Resources,
    fallback: Option<Box<dyn Fallback>>,
    g: G2P,
)
    requires
        call_ensures(G2P::with_fallback, (lang, resources, fallback), g),
    ensures
        g.lexicon.lang == lang,
        g.lexicon.cap_stresses.0.quarters == 2,
        g.lexicon.cap_stresses.1.quarters == 8,
        g.lexicon.golds@ == lexicon::word_map(resources.golds@),
        g.lexicon.silvers@ == lexicon::word_map(resources.silvers@),
        g.unk@ == seq!['❓'],
        g.services == resources.services,
        g.fallback == fallback,
{
    reveal_strlit("❓");
    assert("❓"@ =~= seq!['❓']);
}

/// A new lexicon has the dialect and the entries that it is given, half stress for capitalized
/// words and double stress for those in capitals.
pub proof fn law_new_lexicon(
    lang: Language,
    golds: Vec<(String, PhonemeEntry)>,
    silvers: Vec<(String, PhonemeEntry)>,
    lex: Lexicon,
)
    requires
        call_ensures(Lexicon::new, (lang, golds, silvers), lex),
    ensures
        lex.lang == lang,
        lex.cap_stresses.0.quarters == 2,
        lex.cap_stresses.1.quarters == 8,
        lex.golds@ == lexicon::word_map(golds@),
        lex.silvers@ == lexicon::word_map(silvers@),
{
}

/// Each dialect has its own two dictionaries.
pub proof fn law_dictionaries(r: (Dictionary, Dictionary))
    ensures
        call_ensures(Language::dictionaries, (Language::EnglishUS,), r) ==> r.0
            == Dictionary::UsGold && r.1 == Dictionary::UsSilver,
        call_ensures(Language::dictionaries, (Language::EnglishGB,), r) ==> r.0
            == Dictionary::GbGold && r.1 == Dictionary::GbSilver,
{
}

/// A level of whole steps is four quarters a step, and one of half steps two.
pub proof fn law_levels_in_quarters(n: i32, r: Stress)
    ensures
        call_ensures(Stress::whole, (n,), r) ==> r.quarters == 4 * n,
        call_ensures(Stress::halves, (n,), r) ==> r.quarters == 2 * n,
{
}

/// An error's message is the fallback's own behind the words that tell where it comes from.
pub proof fn law_message(e: FallbackError, r: String)
    requires
        call_ensures(G2PError::message, (&G2PError::Fallback(e),), r),
    ensures
        r@ == "fallback error: "@ + e.message@,
{
}

/// A new token has its text, tag and white space, and nothing else.
pub proof fn law_new_token(s: String, tag: String, whitespace: String, t: MToken)
    requires
        call_ensures(MToken::new, (s, tag, whitespace), t),
    ensures
        t.text@ == s@,
        t.tag@ == tag@,
        t.whitespace@ == whitespace@,
        t.phonemes is None,
        t.extra.stress is None,
        t.extra.num_flags@ == Seq::<char>::empty(),
{
    let v = t@;
    assert(v.text == s@ && v.tag == tag@ && v.whitespace == whitespace@);
}

/// Whether a step is the given one.
pub open spec fn takes(r: Step, step: steps::Move) -> bool {
    match r {
        Step::Say(ps) => step == steps::Move::Say(ps@),
        Step::Fail(e) => step == steps::Move::Fail(e),
        Step::ReadParts(parts) => step matches steps::Move::ReadParts(p) && p.len()
            == parts@.len() && forall|i: int| 0 <= i < p.len() ==> #[trigger] p[i] == parts@[i]@,
        Step::ReadInstead(s) => step == steps::Move::ReadInstead(s@),
        Step::AskRules => step is AskRules,
        Step::AskFallback => step is AskFallback,
    }
}

/// The steps that follow the answers are those that the laws speak of.
pub proof fn law_steps_are_taken(word: &str, unk: &str, ps: String, e: FallbackError, r: Step)
    ensures
        call_ensures(Step::from_lexicon, (word, Some(ps)), r) ==> takes(
            r,
            steps::after_lexicon(word@, Some(ps@)),
        ),
        call_ensures(Step::from_lexicon, (word, None::<String>), r) ==> takes(
            r,
            steps::after_lexicon(word@, None),
        ),
        call_ensures(Step::from_rules, (word, unk, Some(ps)), r) ==> takes(
            r,
            steps::after_rules(word@, unk@, Some(ps@)),
        ),
        call_ensures(Step::from_rules, (word, unk, None::<String>), r) ==> takes(
            r,
            steps::after_rules(word@, unk@, None),
        ),
        call_ensures(
            Step::from_fallback,
            (word, Some(Ok::<String, FallbackError>(ps))),
            r,
        ) ==> takes(r, steps::after_fallback(word@, Some(Ok(ps@)))),
        call_ensures(
            Step::from_fallback,
            (word, Some(Err::<String, FallbackError>(e))),
            r,
        ) ==> takes(r, steps::after_fallback(word@, Some(Err(e)))),
        call_ensures(
            Step::from_fallback,
            (word, None::<Result<String, FallbackError>>),
            r,
        ) ==> takes(r, steps::after_fallback(word@, None)),
{
    if let Step::ReadParts(parts) = r {
        let views = text::views(parts@);
        assert forall|i: int| 0 <= i < views.len() implies #[trigger] views[i] == parts@[i]@ by {
        }
    }
}

} // verus!
