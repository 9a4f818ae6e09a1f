//! Tokens with part-of-speech tags.
use crate::latex::span::LocatedRange;
use crate::text::unicode::byte_len;
use super::jieba_analyzer::{analyzed, token_views};
use vstd::prelude::*;

verus! {

/// Part-of-speech tag
#[derive(Debug, Clone, Copy, PartialEq, Eq, Structural)]
pub enum PosTag {
    /// Noun
    Noun,
    /// Verb
    Verb,
    /// Adjective
    Adjective,
    /// Adverb
    Adverb,
    /// Preposition
    Preposition,
    /// Conjunction
    Conjunction,
    /// Pronoun
    Pronoun,
    /// Particle (助词)
    Particle,
    /// Numeral
    Numeral,
    /// Punctuation
    Punctuation,
    /// Other/Unknown
    Other,
}

/// A token with position and POS tag
#[derive(Debug)]
pub struct Token {
    pub surface: String,
    pub pos: PosTag,
    pub location: LocatedRange,
}

impl Clone for Token {
    fn clone(&self) -> (r: Self)
        ensures
            r == *self,
    {
        Token { surface: self.surface.clone(), pos: self.pos, location: self.location.copy() }
    }
}

/// Result of lexical analysis on a sentence
#[derive(Debug)]
pub struct LexicalAnalysis {
    pub text: String,
    pub tokens: Vec<Token>,
    pub location: LocatedRange,
}

/// The surfaces of tagged words, one after the other.
pub open spec fn joined_words(words: Seq<(Seq<char>, Seq<char>)>) -> Seq<char>
    decreases words.len(),
{
    if words.len() == 0 {
        Seq::empty()
    } else {
        joined_words(words.drop_last()) + words.last().0
    }
}

/// Tokenizer and part-of-speech tagger for sentences.
pub trait LexicalAnalyzer {
    /// The tokens of a sentence at `location`: the words of some tagging of
    /// the text, which together give the text back, each found in order from
    /// the end of the last one found.
    fn analyze(&self, text: &str, location: LocatedRange) -> (r: LexicalAnalysis)
        requires
            location.range.start + byte_len(text@) <= usize::MAX,
        ensures
            r.text@ == text@,
            r.location == location,
            exists|words: Seq<(Seq<char>, Seq<char>)>|
                joined_words(words) == text@ && token_views(r.tokens@) == (#[trigger] analyzed(
                    words,
                    text@,
                    location,
                    words.len() as int,
                )).0,
    ;
}

} // verus!
