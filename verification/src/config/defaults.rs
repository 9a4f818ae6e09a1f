//! The configuration used when no file says otherwise.
use super::nlp::{NlpConfig, NlpPosBackend, NlpSyntaxBackend, NlpTokenizerBackend};
use super::rules::{
    Acr001Config, Acr002Config, Case001Config, Func001Config, Func002Config, Level, Punc002Config,
    Style001Config, Style002Config, Syn001Config, Syn002Config, Syn003Config, Syn004Config,
    Syn005Config, Term001Config, Term002Config,
};
use super::schema::{LatexConfig, LexiconConfig, PaperlintConfig, RulesConfig};
use vstd::prelude::*;

verus! {

/// The characters of each string.
pub open spec fn texts(v: Seq<String>) -> Seq<Seq<char>> {
    v.map_values(|s: String| s@)
}

/// The characters of each pair of strings.
pub open spec fn text_pairs(v: Seq<(String, String)>) -> Seq<(Seq<char>, Seq<char>)> {
    v.map_values(|p: (String, String)| (p.0@, p.1@))
}

/// The built-in configuration.
#[derive(Debug, Clone)]
pub struct DefaultConfig;

impl DefaultConfig {
    /// The built-in configuration. TERM002, PUNC002 and CASE001 report
    /// warnings; TERM002 explains terms within 100 characters.
    pub fn load() -> (config: PaperlintConfig)
        ensures
            config.nlp == (NlpConfig {
                tokenizer: NlpTokenizerBackend::Jieba,
                pos: NlpPosBackend::Jieba,
                syntax: NlpSyntaxBackend::Off,
            }),
            config.rules.acr001.level == Level::Error,
            config.rules.acr001.min_length == 2,
            texts(config.rules.acr001.ignore@) == seq!["AI"@, "CPU"@, "GPU"@, "API"@],
            config.rules.acr002.level == Level::Warning,
            config.rules.acr002.min_usages_after_definition == 1,
            config.rules.term001.level == Level::Warning,
            text_pairs(config.rules.term001.replace@) == seq![
                ("Github"@, "GitHub"@),
                ("data set"@, "dataset"@),
                ("web site"@, "website"@),
            ],
            config.rules.term002.level == Level::Warning,
            config.rules.term002.context_chars == 100,
            config.rules.style001.level == Level::Warning,
            config.rules.style001.max_chars == 80,
            config.rules.style001.max_english_words == 45,
            config.rules.punc002.level == Level::Warning,
            config.rules.punc002.ignore_patterns@.len() == 0,
            config.rules.case001.level == Level::Warning,
            config.rules.func001.level == Level::Warning,
            config.rules.func001.max_ratio_bits == 0x3E4C_CCCD,
            config.rules.func001.min_sentence_tokens == 10,
            texts(config.rules.func001.words@) == seq!["的"@, "了"@, "在"@, "进行"@],
            config.rules.func002.level == Level::Warning,
            config.rules.func002.max_same_class_in_window == 3,
            config.rules.func002.window_tokens == 12,
            config.rules.func002.classes@.len() == 1,
            config.rules.func002.classes@[0].0@ == "connective"@,
            texts(config.rules.func002.classes@[0].1@) == seq!["由于"@, "因此"@, "从而"@, "进而"@],
            config.rules.style002.level == Level::Warning,
            config.rules.style002.max_occurrences_per_paragraph == 3,
            texts(config.rules.style002.words@) == seq!["进行"@, "开展"@, "实现"@, "完成"@],
            config.rules.syn001.level == Level::Warning,
            config.rules.syn001.max_per_paragraph == 2,
            config.rules.syn002.level == Level::Warning,
            config.rules.syn002.max_per_paragraph == 2,
            config.rules.syn002.max_consecutive_sentences == 2,
            config.rules.syn003.level == Level::Warning,
            config.rules.syn003.max_prepositional_phrases_before_main_clause == 3,
            texts(config.rules.syn003.words@) == seq!["在"@, "基于"@, "通过"@, "针对"@, "对于"@, "根据"@],
            config.rules.syn004.level == Level::Warning,
            config.rules.syn004.max_connectives_per_sentence == 3,
            texts(config.rules.syn004.words@) == seq!["由于"@, "因此"@, "从而"@, "进而"@, "同时"@, "此外"@, "但是"@, "然而"@],
            config.rules.syn005.level == Level::Warning,
            config.rules.syn005.max_modifier_tokens == 10,
            !config.rules.syn005.require_dependency,
            texts(config.latex.ignore_environments@) == seq!["align"@, "align*"@, "equation"@, "equation*"@, "lstlisting"@, "minted"@, "verbatim"@],
            config.lexicon.entries@.len() == 0,
    {
        let mut replace: Vec<(String, String)> = Vec::new();
        replace.push(("Github".to_owned(), "GitHub".to_owned()));
        replace.push(("data set".to_owned(), "dataset".to_owned()));
        replace.push(("web site".to_owned(), "website".to_owned()));
        assert(text_pairs(replace@) =~= seq![
            ("Github"@, "GitHub"@),
            ("data set"@, "dataset"@),
            ("web site"@, "website"@),
        ]);
        let mut ignore: Vec<String> = Vec::new();
        ignore.push("AI".to_owned());
        ignore.push("CPU".to_owned());
        ignore.push("GPU".to_owned());
        ignore.push("API".to_owned());
        assert(texts(ignore@) =~= seq!["AI"@, "CPU"@, "GPU"@, "API"@]);
        let mut func001_words: Vec<String> = Vec::new();
        func001_words.push("的".to_owned());
        func001_words.push("了".to_owned());
        func001_words.push("在".to_owned());
        func001_words.push("进行".to_owned());
        assert(texts(func001_words@) =~= seq!["的"@, "了"@, "在"@, "进行"@]);
        let mut connectives: Vec<String> = Vec::new();
        connectives.push("由于".to_owned());
        connectives.push("因此".to_owned());
        connectives.push("从而".to_owned());
        connectives.push("进而".to_owned());
        assert(texts(connectives@) =~= seq!["由于"@, "因此"@, "从而"@, "进而"@]);
        let mut style002_words: Vec<String> = Vec::new();
        style002_words.push("进行".to_owned());
        style002_words.push("开展".to_owned());
        style002_words.push("实现".to_owned());
        style002_words.push("完成".to_owned());
        assert(texts(style002_words@) =~= seq!["进行"@, "开展"@, "实现"@, "完成"@]);
        let mut syn003_words: Vec<String> = Vec::new();
        syn003_words.push("在".to_owned());
        syn003_words.push("基于".to_owned());
        syn003_words.push("通过".to_owned());
        syn003_words.push("针对".to_owned());
        syn003_words.push("对于".to_owned());
        syn003_words.push("根据".to_owned());
        assert(texts(syn003_words@) =~= seq!["在"@, "基于"@, "通过"@, "针对"@, "对于"@, "根据"@]);
        let mut syn004_words: Vec<String> = Vec::new();
        syn004_words.push("由于".to_owned());
        syn004_words.push("因此".to_owned());
        syn004_words.push("从而".to_owned());
        syn004_words.push("进而".to_owned());
        syn004_words.push("同时".to_owned());
        syn004_words.push("此外".to_owned());
        syn004_words.push("但是".to_owned());
        syn004_words.push("然而".to_owned());
        assert(texts(syn004_words@) =~= seq!["由于"@, "因此"@, "从而"@, "进而"@, "同时"@, "此外"@, "但是"@, "然而"@]);
        let mut environments: Vec<String> = Vec::new();
        environments.push("align".to_owned());
        environments.push("align*".to_owned());
        environments.push("equation".to_owned());
        environments.push("equation*".to_owned());
        environments.push("lstlisting".to_owned());
        environments.push("minted".to_owned());
        environments.push("verbatim".to_owned());
        assert(texts(environments@) =~= seq!["align"@, "align*"@, "equation"@, "equation*"@, "lstlisting"@, "minted"@, "verbatim"@]);
        let mut classes: Vec<(String, Vec<String>)> = Vec::new();
        classes.push(("connective".to_owned(), connectives));
        PaperlintConfig {
            nlp: NlpConfig {
                tokenizer: NlpTokenizerBackend::Jieba,
                pos: NlpPosBackend::Jieba,
                syntax: NlpSyntaxBackend::Off,
            },
            rules: RulesConfig {
                acr001: Acr001Config { level: Level::Error, min_length: 2, ignore },
                acr002: Acr002Config { level: Level::Warning, min_usages_after_definition: 1 },
                term001: Term001Config { level: Level::Warning, replace },
                term002: Term002Config { level: Level::Warning, context_chars: 100 },
                style001: Style001Config {
                    level: Level::Warning,
                    max_chars: 80,
                    max_english_words: 45,
                },
                punc002: Punc002Config { level: Level::Warning, ignore_patterns: Vec::new() },
                case001: Case001Config { level: Level::Warning },
                func001: Func001Config {
                    level: Level::Warning,
                    max_ratio_bits: 0x3E4C_CCCD,
                    min_sentence_tokens: 10,
                    words: func001_words,
                },
                func002: Func002Config {
                    level: Level::Warning,
                    max_same_class_in_window: 3,
                    window_tokens: 12,
                    classes,
                },
                style002: Style002Config {
                    level: Level::Warning,
                    max_occurrences_per_paragraph: 3,
                    words: style002_words,
                },
                syn001: Syn001Config { level: Level::Warning, max_per_paragraph: 2 },
                syn002: Syn002Config {
                    level: Level::Warning,
                    max_per_paragraph: 2,
                    max_consecutive_sentences: 2,
                },
                syn003: Syn003Config {
                    level: Level::Warning,
                    max_prepositional_phrases_before_main_clause: 3,
                    words: syn003_words,
                },
                syn004: Syn004Config {
                    level: Level::Warning,
                    max_connectives_per_sentence: 3,
                    words: syn004_words,
                },
                syn005: Syn005Config {
                    level: Level::Warning,
                    max_modifier_tokens: 10,
                    require_dependency: false,
                },
            },
            latex: LatexConfig { ignore_environments: environments },
            lexicon: LexiconConfig { entries: Vec::new() },
        }
    }
}

} // verus!
