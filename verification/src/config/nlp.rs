//! Choice of the natural-language back ends.
use vstd::prelude::*;

verus! {

#[derive(Debug, Clone, Copy, PartialEq, Eq, Structural)]
pub enum NlpTokenizerBackend {
    Jieba,
}

#[derive(Debug, Clone, Copy, PartialEq, Eq, Structural)]
pub enum NlpPosBackend {
    Jieba,
}

#[derive(Debug, Clone, Copy, PartialEq, Eq, Structural)]
/// No syntax analysis.
pub enum NlpSyntaxBackend {
    Off,
}

/// The tokenizer, part-of-speech tagger and syntax analyzer to use.
#[derive(Debug, Clone, Copy, PartialEq, Eq, Structural)]
pub struct NlpConfig {
    pub tokenizer: NlpTokenizerBackend,
    pub pos: NlpPosBackend,
    pub syntax: NlpSyntaxBackend,
}

} // verus!
