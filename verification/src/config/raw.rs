//! Configuration as written, before defaults are applied.
use super::level::RuleSetting;
use super::nlp::NlpConfig;
use super::rules::{
    Acr001Config, Acr002Config, Case001Config, Func001Config, Func002Config, LexiconEntryConfig,
    Punc002Config, Style001Config, Style002Config, Syn001Config, Syn002Config, Syn003Config,
    Syn004Config, Syn005Config, Term001Config, Term002Config,
};
use vstd::prelude::*;

verus! {

/// A configuration file: every section optional.
#[derive(Debug, Clone, Default)]
pub struct RawPaperlintConfig {
    pub rules: RawRulesConfig,
    pub latex: RawLatexConfig,
    pub nlp: Option<NlpConfig>,
    pub lexicon: Option<RawLexiconConfig>,
}

/// The `[rules]` section: each rule optional.
#[derive(Debug, Clone, Default)]
pub struct RawRulesConfig {
    pub acr001: Option<RuleSetting<Acr001Config>>,
    pub acr002: Option<RuleSetting<Acr002Config>>,
    pub term001: Option<RuleSetting<Term001Config>>,
    pub term002: Option<RuleSetting<Term002Config>>,
    pub style001: Option<RuleSetting<Style001Config>>,
    pub punc002: Option<RuleSetting<Punc002Config>>,
    pub case001: Option<RuleSetting<Case001Config>>,
    pub func001: Option<RuleSetting<Func001Config>>,
    pub func002: Option<RuleSetting<Func002Config>>,
    pub style002: Option<RuleSetting<Style002Config>>,
    pub syn001: Option<RuleSetting<Syn001Config>>,
    pub syn002: Option<RuleSetting<Syn002Config>>,
    pub syn003: Option<RuleSetting<Syn003Config>>,
    pub syn004: Option<RuleSetting<Syn004Config>>,
    pub syn005: Option<RuleSetting<Syn005Config>>,
}

#[derive(Debug, Clone, Default)]
pub struct RawLatexConfig {
    pub ignore_environments: Option<Vec<String>>,
}

#[derive(Debug, Clone, Default)]
pub struct RawLexiconConfig {
    pub entries: Vec<LexiconEntryConfig>,
}

} // verus!
