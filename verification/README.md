# misaki-rs

A verified engine that turns English text into phonemes, for speech synthesis.

* `src/` is the library. Its functions state in contracts what they do, and Verus proves them
  but for the calls into other code listed under "What is trusted".
  * `g2p`, `engine`: the engine, and reading a text. `outcome` states which results a text
    may have, `steps` what is done about a single word.
  * `lexicon`, `words`, `stem`: dictionaries, special words, and inflected forms.
  * `stress`: stress levels and stress marks.
  * `links`, `marks`: markup such as `[hello](+2)` or `[xyzzy](/həˈloʊ/)`.
  * `tokenize`, `token`: cutting a text into tokens.
  * `number`, `sounds`: numbers and single symbols.
  * `fallback`, `languages`, `tagger`: what a program supplies: a source of pronunciations
    for unknown words, rules of the language, and a part-of-speech tagger.
  * `laws`: what holds of the library as a whole.
  * `text`, `unicode`: strings.
* `tests/` runs the library.
* `app/` reads dictionary files and writes a log.

## Use

```rust
let engine = G2P::new(Language::EnglishUS, resources);
let (phonemes, tokens) = engine.g2p("Hello, world! 123")?;
```

Without a fallback an unknown word is spelt character by character, and reading never fails.
With one, made known by `G2P::with_fallback`, unknown words are pronounced by it, and its
error is the only one that reading a text can end in.

## What is trusted

The proofs rest on these contracts, which Verus believes. Each stands with its doc comment at
the function that makes the call.

* `number::speak_number`: `num2words` has words for every 64-bit number, made of small letters,
  spaces and hyphens.
* `tokenize::compile`, `tokenize::find_all`: what `regex` makes of the two patterns that cut a
  text into tokens.
* `unicode`: the standard library's letter case and alphabetic tables, spelt out on ASCII.
* `text`: `String::push`.

The traits `Fallback`, `LanguageRules` and `Tagger` are for a program to implement. By default
they promise nothing of their answers, and nothing is assumed of them.
