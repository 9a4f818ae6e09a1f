use paperlint::config::{
    Acr001Config, DefaultConfig, Level, LexiconEntryConfig, LexiconEntryError, RawPaperlintConfig, RawRulesConfig,
    RuleSetting,
};
use paperlint::latex::loader::{IncludeTracker, LoadStep};
use paperlint::latex::parser::ParseError;
use paperlint::latex::project::ProjectResolver;
use paperlint::text::lexicon::LexemeKind;
use paperlint::latex::loader::{apply_item, BlockBuilder, SourceText};
use paperlint::latex::walk::WalkItem;
use paperlint::latex::loader::items_of_events;
use paperlint::latex::tree::{SyntaxEvent, SyntaxNode};

#[test]
fn a_file_read_before_is_not_read_again() {
    let mut tracker = IncludeTracker::new();
    assert_eq!(tracker.begin("/p/main.tex"), LoadStep::Enter);
    tracker.finish(true);
    assert_eq!(tracker.begin("/p/main.tex"), LoadStep::Loaded);
}

#[test]
fn a_file_that_includes_itself_again_closes_a_cycle() {
    let mut tracker = IncludeTracker::new();
    assert_eq!(tracker.begin("/p/a.tex"), LoadStep::Enter);
    assert_eq!(tracker.begin("/p/b.tex"), LoadStep::Enter);
    assert_eq!(tracker.begin("/p/a.tex"), LoadStep::Cycle("/p/a.tex -> /p/b.tex -> /p/a.tex".to_string()));
    assert_eq!(tracker.begin("/p/b.tex"), LoadStep::Cycle("/p/b.tex -> /p/b.tex".to_string()));
}

#[test]
fn a_failed_file_may_be_tried_again() {
    let mut tracker = IncludeTracker::new();
    assert_eq!(tracker.begin("/p/a.tex"), LoadStep::Enter);
    tracker.finish(false);
    assert_eq!(tracker.begin("/p/a.tex"), LoadStep::Enter);
}

#[test]
fn relative_inputs_resolve_against_the_root() {
    let resolver = ProjectResolver::new("/work".to_string());
    assert_eq!(resolver.root(), "/work");
    assert_eq!(resolver.candidate("paper/main.tex"), "/work/paper/main.tex");
    assert_eq!(resolver.candidate("/abs/main.tex"), "/abs/main.tex");
}

#[test]
fn parse_errors_read_as_the_command_line_shows_them() {
    let cycle = ParseError::Cycle { cycle: "a.tex -> a.tex".to_string() };
    assert_eq!(cycle.message(), "include cycle detected: a.tex -> a.tex");
    let unresolved = ParseError::Include {
        including_file: "main.tex".to_string(),
        requested: "missing".to_string(),
        reason: "No such file or directory (os error 2)".to_string(),
    };
    assert_eq!(
        unresolved.message(),
        "main.tex includes missing, which could not be resolved: No such file or directory (os error 2)"
    );
    let read = ParseError::Read { path: "x.tex".to_string(), reason: "denied".to_string() };
    assert_eq!(read.message(), "failed to read x.tex: denied");
    let entry = ParseError::Entry { path: "x.tex".to_string(), reason: "gone".to_string() };
    assert_eq!(entry.message(), "failed to resolve entry x.tex: gone");
    let tree = ParseError::TreeSitter { path: "x.tex".to_string() };
    assert_eq!(tree.message(), "tree-sitter parse failed for x.tex");
    let language = ParseError::Language { path: "x.tex".to_string(), message: "version".to_string() };
    assert_eq!(language.message(), "failed to configure tree-sitter LaTeX parser for x.tex: version");
}

#[test]
fn lexicon_entries_are_trimmed() {
    let entry = LexiconEntryConfig::new(
        "  数据集 ",
        &[" data set".to_string(), "dataset\t".to_string()],
        LexemeKind::Term,
        None,
        true,
    )
    .expect("non-empty surfaces");
    assert_eq!(entry.canonical, "数据集");
    assert_eq!(entry.aliases, vec!["data set".to_string(), "dataset".to_string()]);
    assert_eq!(entry.kind, LexemeKind::Term);
    assert!(entry.requires_explanation);
}

#[test]
fn lexicon_entries_refuse_blank_surfaces() {
    let blank = LexiconEntryConfig::new(" \u{3000} ", &[], LexemeKind::Term, None, false);
    assert_eq!(blank, Err(LexiconEntryError::EmptyCanonical));
    assert_eq!(
        LexiconEntryError::EmptyCanonical.message(),
        "lexicon.entries: `canonical` must not be empty or whitespace"
    );
    let alias = LexiconEntryConfig::new("LLM", &["ok".to_string(), "  ".to_string()], LexemeKind::Acronym, None, false);
    assert_eq!(alias, Err(LexiconEntryError::EmptyAlias));
    assert_eq!(
        LexiconEntryError::EmptyAlias.message(),
        "lexicon.entries: `aliases` must not contain empty or whitespace entries"
    );
    let both = LexiconEntryConfig::new("", &["".to_string()], LexemeKind::Acronym, None, false);
    assert_eq!(both, Err(LexiconEntryError::EmptyCanonical));
}

#[test]
fn rule_switches_keep_or_silence_the_default() {
    let defaults = DefaultConfig::load();
    let mut rules = RawRulesConfig::default();
    rules.acr001 = Some(RuleSetting::Enabled(false));
    rules.acr002 = Some(RuleSetting::Enabled(true));
    rules.style001 = None;
    let raw = RawPaperlintConfig { rules, ..RawPaperlintConfig::default() };
    let config = paperlint::config::PaperlintConfig::from_raw(raw, defaults.clone());
    assert_eq!(config.rules.acr001.level, Level::Off);
    assert_eq!(config.rules.acr001.min_length, defaults.rules.acr001.min_length);
    assert_eq!(config.rules.acr002, defaults.rules.acr002);
    assert_eq!(config.rules.style001, defaults.rules.style001);
}

#[test]
fn a_rule_table_replaces_the_default() {
    let mut rules = RawRulesConfig::default();
    let table = Acr001Config { level: Level::Warning, min_length: 3, ignore: vec!["NLP".to_string()] };
    rules.acr001 = Some(RuleSetting::Config(table.clone()));
    let raw = RawPaperlintConfig { rules, ..RawPaperlintConfig::default() };
    let config = paperlint::config::PaperlintConfig::from_raw(raw, DefaultConfig::load());
    assert_eq!(config.rules.acr001, table);
}

#[test]
fn enable_then_disable_overrides_levels() {
    let config = DefaultConfig::load().with_overrides(
        &["STYLE001".to_string(), "ACR001".to_string()],
        &["ACR001".to_string()],
    );
    assert_eq!(config.rules.style001.level, Level::Warning);
    assert_eq!(config.rules.acr001.level, Level::Off);
}

#[test]
fn built_blocks_are_not_blank_and_their_mappings_tile_the_text() {
    let text = "使用 LLM 推理。\n\n  \n第二段 text";
    let source = SourceText::new(text);
    let mut builder = BlockBuilder::new("main.tex".to_string());
    let mut blocks = Vec::new();
    let first = text.find('使').unwrap();
    let llm = text.find("LLM").unwrap();
    let reason = text.find('推').unwrap();
    let second = text.find('第').unwrap();
    let latin = text.find("text").unwrap();
    let items = vec![
        WalkItem::Text { start: first, end: first + 6 },
        WalkItem::Whitespace { start: first + 6, end: llm },
        WalkItem::Text { start: llm, end: llm + 3 },
        WalkItem::Whitespace { start: llm + 3, end: reason },
        WalkItem::Text { start: reason, end: reason + 9 },
        WalkItem::Whitespace { start: reason + 9, end: second },
        WalkItem::Whitespace { start: second, end: second },
        WalkItem::Text { start: second, end: second + 9 },
        WalkItem::Whitespace { start: second + 9, end: latin },
        WalkItem::Text { start: latin, end: latin + 4 },
        WalkItem::Flush,
    ];
    for item in &items {
        assert_eq!(apply_item(&mut builder, item, &source, &mut blocks).unwrap(), None);
    }
    let texts: Vec<&str> = blocks.iter().map(|b| b.text.as_str()).collect();
    assert_eq!(texts, ["使用 LLM 推理。", "第二段 text"]);
    for block in &blocks {
        assert!(!block.text.trim().is_empty());
        let mut at = 0;
        for m in &block.mappings {
            assert_eq!(m.source.file, "main.tex");
            assert_eq!(m.logical.start, at);
            assert_eq!(&block.text[m.logical.clone()], &text[m.source.start..m.source.end]);
            at = m.logical.end;
        }
        assert_eq!(at, block.text.len());
    }
    let unnamed = apply_item(&mut builder, &WalkItem::UnnamedInclude, &source, &mut blocks);
    assert!(matches!(unnamed, Err(ParseError::TreeSitter { ref path }) if path == "main.tex"));
    assert_eq!(blocks.len(), 2);
}

fn open(kind: &str, field: Option<&str>, start: usize, end: usize) -> SyntaxEvent {
    SyntaxEvent::Open(SyntaxNode { kind: kind.to_string(), named: true, field: field.map(str::to_string), start, end })
}

#[test]
fn an_include_without_a_path_fails_in_its_place_after_earlier_includes() {
    let text = "甲\\input{ch}\\input";
    let events = vec![
        open("source_file", None, 0, 19),
        open("word", None, 0, 3),
        SyntaxEvent::Close,
        open("latex_include", None, 3, 13),
        open("command_name", Some("command"), 3, 9),
        SyntaxEvent::Close,
        open("curly_group_path", Some("path"), 9, 13),
        SyntaxEvent::Close,
        SyntaxEvent::Close,
        open("latex_include", None, 13, 19),
        open("command_name", Some("command"), 13, 19),
        SyntaxEvent::Close,
        SyntaxEvent::Close,
        SyntaxEvent::Close,
    ];
    let items = items_of_events(&events, text, &[]).unwrap();
    let kept: Vec<&WalkItem> = items.iter().filter(|item| !matches!(item, WalkItem::Whitespace { .. })).collect();
    assert_eq!(
        kept,
        [
            &WalkItem::Text { start: 0, end: 3 },
            &WalkItem::Flush,
            &WalkItem::Include { requested: "ch".to_string() },
            &WalkItem::Flush,
            &WalkItem::UnnamedInclude,
        ]
    );
}
