pub mod chars;
pub mod language;
pub mod lexicon;
pub mod runs;
pub mod sentence;
pub mod terminology;
pub mod unicode;

pub use chars::SentenceStats;
pub use language::{detect_language, Language};
pub use sentence::{segment_sentences, Sentence};
