//! Grapheme-to-phoneme conversion for English text, with verified lookup,
//! stemming, stress placement, markup handling and token pronunciation.

pub mod engine;
pub mod fallback;
pub mod g2p;
pub mod language;
pub mod languages;
pub mod laws;
pub mod lexicon;
pub mod links;
pub mod marks;
pub mod number;
pub mod outcome;
pub mod sounds;
pub mod stem;
pub mod steps;
pub mod stress;
pub mod tagger;
pub mod text;
pub mod token;
pub mod tokenize;
pub mod unicode;
pub mod words;
