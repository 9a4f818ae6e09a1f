pub mod defaults;
pub mod level;
pub mod nlp;
pub mod raw;
pub mod rules;
pub mod schema;

pub use level::{resolve, RuleSetting};
pub use nlp::{NlpConfig, NlpPosBackend, NlpSyntaxBackend, NlpTokenizerBackend};
pub use raw::{RawLatexConfig, RawLexiconConfig, RawPaperlintConfig, RawRulesConfig};
pub use rules::{
    Acr001Config, Acr002Config, Case001Config, Func001Config, Func002Config, HasLevel, Level,
    LexiconEntryConfig, LexiconEntryError, Punc002Config, Style001Config, Style002Config, Syn001Config, Syn002Config,
    Syn003Config, Syn004Config, Syn005Config, Term001Config, Term002Config,
};
pub use schema::{LatexConfig, LexiconConfig, PaperlintConfig, RulesConfig};
pub use defaults::DefaultConfig;
