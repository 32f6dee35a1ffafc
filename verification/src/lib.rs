//! A text-transformation and comparison engine for the Japanese kana
//! syllabaries: segmentation of kana text into romaji syllables,
//! transliteration to a romanized string, a syllable-bound minimum-cost
//! diff for grading typed answers, and a frequency-weighted word-set
//! builder for training sessions.

mod chars;
pub mod diff;
mod rng;
mod romaji;
mod split;
mod tables;
mod wordset;

pub use diff::Diff;
pub use romaji::to_romaji;
pub use romaji::Match;
pub use split::split_romaji;
pub use wordset::build_set;
pub use wordset::set_all;
pub use wordset::set_all_rare;
pub use wordset::set_hiragana;
pub use wordset::set_katakana;
pub use wordset::Word;
pub use wordset::WordCorpus;
pub use wordset::WordSet;

pub use tables::DigraphPrefix;
pub use tables::DigraphSuffix;
pub use tables::Kana;
