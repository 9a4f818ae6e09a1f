pub mod analyzer;
pub mod jieba_analyzer;

pub use analyzer::{LexicalAnalysis, LexicalAnalyzer, PosTag, Token};
pub use jieba_analyzer::JiebaAnalyzer;
