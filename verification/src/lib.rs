//! A two-tier gloss engine for Arcaxh text: whole words are looked up in a
//! vocabulary, and unknown words are broken down into a known prefix and
//! suffix.

pub mod laws;
pub mod lexicon;
pub mod text;
pub mod translator;

pub use lexicon::{ArcaxhDictionary, LexiconError, Matching};
pub use translator::ArcaxhTranslator;
