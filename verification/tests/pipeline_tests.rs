use paperlint::config::{DefaultConfig, Level, LexiconEntryConfig, PaperlintConfig};
use paperlint::text::lexicon::LexemeKind;
use paperlint::latex::parser::Document;
use paperlint::latex::span::{SourceFile, SourceMapping, Span, TextBlock};
use paperlint::lint::diagnostic::Diagnostic;
use paperlint::lint::engine::{RuleEngine, RuleRegistry};
use paperlint::output::human::{render, HumanRenderError};
use paperlint::output::listing::sort_diagnostics;
use paperlint::rule_id::RuleId;
use paperlint::cli::exit_code;

const PATH: &str = "/paper/main.tex";
const ROOT: &str = "/paper";

/// A one-file document whose only paragraph is the whole text, mapped
/// byte for byte onto the source.
fn document(text: &str) -> Document {
    let body = text.trim_end_matches('\n');
    let mapping = SourceMapping {
        logical: 0..body.len(),
        source: Span { file: PATH.to_string(), start: 0, end: body.len(), line: 1, column: 1 },
    };
    Document {
        entry: PATH.to_string(),
        root: ROOT.to_string(),
        sources: vec![SourceFile { path: PATH.to_string(), text: text.to_string() }],
        blocks: vec![TextBlock { text: body.to_string(), mappings: vec![mapping] }],
    }
}

fn lint(text: &str, config: &PaperlintConfig) -> (Document, Vec<Diagnostic>) {
    let document = document(text);
    let diagnostics = RuleEngine::new(RuleRegistry::default()).run(&document, config);
    let sorted = sort_diagnostics(diagnostics, ROOT);
    (document, sorted)
}

fn of_rule(diagnostics: &[Diagnostic], rule: RuleId) -> Vec<&Diagnostic> {
    diagnostics.iter().filter(|diagnostic| diagnostic.rule == rule).collect()
}

#[test]
fn acronym_used_before_definition_is_an_error() {
    let (_, diagnostics) = lint("本文使用LLM进行推理。\n", &DefaultConfig::load());
    let acr = of_rule(&diagnostics, RuleId::Acr001);
    assert_eq!(acr.len(), 1);
    assert_eq!(acr[0].message, "acronym `LLM` used before definition");
    assert_eq!(acr[0].severity, Level::Error);
    assert_eq!((acr[0].span.start, acr[0].span.end), (12, 15));
    assert_eq!((acr[0].span.line, acr[0].span.column), (1, 5));
    assert_eq!(acr[0].span.file, PATH);
}

#[test]
fn missing_spaces_are_reported_in_source_order() {
    let (_, diagnostics) = lint("本文使用LLM进行推理。\n", &DefaultConfig::load());
    let punc = of_rule(&diagnostics, RuleId::Punc002);
    assert_eq!(punc.len(), 2);
    assert_eq!((punc[0].span.start, punc[0].span.end), (9, 13));
    assert_eq!((punc[1].span.start, punc[1].span.end), (14, 18));
    assert!(punc.iter().all(|d| d.message == "missing space between CJK and Latin/number"));
    assert!(punc.iter().all(|d| d.severity == Level::Warning));
}

#[test]
fn sorted_report_orders_by_position() {
    let (_, diagnostics) = lint("本文使用LLM进行推理。\n", &DefaultConfig::load());
    let starts: Vec<_> = diagnostics.iter().map(|d| d.span.start).collect();
    let mut expected = starts.clone();
    expected.sort();
    assert_eq!(starts, expected);
}

#[test]
fn defined_acronym_without_later_use_is_reported() {
    let (_, diagnostics) = lint("大语言模型（Large Language Model，LLM）是一种新型模型。\n", &DefaultConfig::load());
    let acr = of_rule(&diagnostics, RuleId::Acr002);
    assert_eq!(acr.len(), 1);
    assert_eq!(acr[0].message, "acronym `LLM` has 0 uses after its definition; minimum is 1");
    assert!(of_rule(&diagnostics, RuleId::Acr001).is_empty());
}

#[test]
fn defined_then_used_acronym_is_clean() {
    let text = "大语言模型（Large Language Model，LLM）是一种新型模型。我们使用 LLM 进行推理。\n";
    let (_, diagnostics) = lint(text, &DefaultConfig::load());
    assert!(of_rule(&diagnostics, RuleId::Acr001).is_empty());
    assert!(of_rule(&diagnostics, RuleId::Acr002).is_empty());
}

#[test]
fn configured_replacement_is_suggested() {
    let (_, diagnostics) = lint("我们把代码放在 Github 上。\n", &DefaultConfig::load());
    let term = of_rule(&diagnostics, RuleId::Term001);
    assert_eq!(term.len(), 1);
    assert_eq!(term[0].message, "use `GitHub` instead of `Github`");
    assert_eq!(term[0].severity, Level::Warning);
}

#[test]
fn long_chinese_sentence_counts_effective_characters() {
    let text = format!("{}。\n", "研究".repeat(45));
    let (_, diagnostics) = lint(&text, &DefaultConfig::load());
    let style = of_rule(&diagnostics, RuleId::Style001);
    assert_eq!(style.len(), 1);
    assert_eq!(style[0].message, "sentence has 90 effective characters; max is 80");
}

#[test]
fn disabled_rules_report_nothing() {
    let config = DefaultConfig::load().with_overrides(&[], &["ACR001".to_string(), "PUNC002".to_string()]);
    let (_, diagnostics) = lint("本文使用LLM进行推理。\n", &config);
    assert!(of_rule(&diagnostics, RuleId::Acr001).is_empty());
    assert!(of_rule(&diagnostics, RuleId::Punc002).is_empty());
}

#[test]
fn same_input_and_config_give_the_same_report() {
    let text = "本文使用LLM进行推理。GPU 很快。\n";
    let config = DefaultConfig::load();
    let (_, first) = lint(text, &config);
    let (_, second) = lint(text, &config);
    assert_eq!(first, second);
}

#[test]
fn human_report_has_header_snippet_marker_and_summary() {
    let (document, diagnostics) = lint("本文使用LLM进行推理。\n", &DefaultConfig::load());
    let output = render(&document.sources, ROOT, &diagnostics, false).expect("sources are loaded");
    let lines: Vec<_> = output.lines().collect();
    assert_eq!(lines[0], "warning[PUNC002] main.tex:1:4: missing space between CJK and Latin/number");
    assert_eq!(lines[1], "  本文使用LLM进行推理。");
    assert_eq!(lines[2], "        ^^^");
    assert_eq!(lines[3], "error[ACR001] main.tex:1:5: acronym `LLM` used before definition");
    assert!(output.ends_with("\nFound 3 problems: 1 error, 2 warnings\n"));
}

#[test]
fn human_report_without_problems_says_so() {
    let output = render(&[], ROOT, &[], false).expect("nothing to look up");
    assert_eq!(output, "No problems found.\n");
}

#[test]
fn human_report_colors_only_when_asked() {
    let (document, diagnostics) = lint("本文使用LLM进行推理。\n", &DefaultConfig::load());
    let plain = render(&document.sources, ROOT, &diagnostics, false).unwrap();
    let colored = render(&document.sources, ROOT, &diagnostics, true).unwrap();
    assert!(!plain.contains('\u{1b}'));
    assert!(colored.contains('\u{1b}'));
}

fn diagnostic(file: &str, start: usize, end: usize) -> Diagnostic {
    Diagnostic {
        rule: RuleId::Acr001,
        severity: Level::Error,
        message: "m".to_string(),
        span: Span { file: file.to_string(), start, end, line: 1, column: 1 },
    }
}

#[test]
fn human_report_refuses_a_diagnostic_without_its_source() {
    let sources = vec![SourceFile { path: PATH.to_string(), text: "abc".to_string() }];
    let error = render(&sources, ROOT, &[diagnostic("/paper/other.tex", 0, 1)], false).unwrap_err();
    assert_eq!(error, HumanRenderError::MissingSource("/paper/other.tex".to_string()));
    assert_eq!(error.message(), "diagnostic source was not loaded: /paper/other.tex");
}

#[test]
fn human_report_refuses_a_range_outside_its_source() {
    let sources = vec![SourceFile { path: PATH.to_string(), text: "中文".to_string() }];
    let error = render(&sources, ROOT, &[diagnostic(PATH, 1, 3)], false).unwrap_err();
    assert_eq!(
        error,
        HumanRenderError::InvalidByteRange { path: PATH.to_string(), start: 1, end: 3, source_len: 6 }
    );
    assert_eq!(
        error.message(),
        "invalid byte range 1..3 for diagnostic source /paper/main.tex (source length 6)"
    );
    let error = render(&sources, ROOT, &[diagnostic(PATH, 0, 9)], false).unwrap_err();
    assert!(matches!(error, HumanRenderError::InvalidByteRange { end: 9, .. }));
}

#[test]
fn report_sorts_by_displayed_path_then_position_then_rule() {
    let mut a = diagnostic("/paper/b.tex", 0, 1);
    a.rule = RuleId::Term001;
    let b = diagnostic("/paper/a.tex", 5, 6);
    let c = diagnostic("/paper/a.tex", 0, 2);
    let mut d = diagnostic("/paper/a.tex", 0, 2);
    d.rule = RuleId::Acr002;
    let sorted = sort_diagnostics(vec![a.clone(), b.clone(), c.clone(), d.clone()], ROOT);
    assert_eq!(sorted, vec![c, d, b, a]);
}

#[test]
fn mixed_case_variants_of_known_acronyms_are_reported() {
    let (_, diagnostics) = lint("我们用 Gpu 和 gpu 加速。\n", &DefaultConfig::load());
    let case = of_rule(&diagnostics, RuleId::Case001);
    assert_eq!(case.len(), 1);
    assert_eq!(case[0].message, "use `GPU` instead of `Gpu`");
    assert_eq!(case[0].severity, Level::Warning);
    assert_eq!((case[0].span.start, case[0].span.end), (10, 13));
}

#[test]
fn document_definitions_own_their_casing() {
    let text = "大语言模型（LLM）很强。Llm 与 llm 不同。\n";
    let (_, diagnostics) = lint(text, &DefaultConfig::load());
    let case = of_rule(&diagnostics, RuleId::Case001);
    assert_eq!(case.len(), 1);
    assert_eq!(case[0].message, "use `LLM` instead of `Llm`");
}

#[test]
fn case_only_replacements_are_left_to_case001() {
    let mut config = DefaultConfig::load();
    let entry = LexiconEntryConfig::new("GitHub", &[], LexemeKind::ProperNoun, None, false).unwrap();
    config.lexicon.entries.push(entry);
    let (_, diagnostics) = lint("我们把代码放在 Github 上。\n", &config);
    assert!(of_rule(&diagnostics, RuleId::Term001).is_empty());
    let case = of_rule(&diagnostics, RuleId::Case001);
    assert_eq!(case.len(), 1);
    assert_eq!(case[0].message, "use `GitHub` instead of `Github`");
}

#[test]
fn replacements_that_are_not_case_variants_stay_with_term001() {
    let mut config = DefaultConfig::load();
    let entry = LexiconEntryConfig::new("GitHub", &[], LexemeKind::ProperNoun, None, false).unwrap();
    config.lexicon.entries.push(entry);
    let (_, diagnostics) = lint("这个 web site 很好。\n", &config);
    let term = of_rule(&diagnostics, RuleId::Term001);
    assert_eq!(term.len(), 1);
    assert_eq!(term[0].message, "use `website` instead of `web site`");
}

#[test]
fn the_exit_status_is_one_exactly_when_an_error_is_reported() {
    let diagnostic = |severity: Level| Diagnostic {
        rule: RuleId::Term002,
        severity,
        message: "m".to_string(),
        span: Span { file: "main.tex".to_string(), start: 0, end: 1, line: 1, column: 1 },
    };
    assert_eq!(exit_code(&[]), 0);
    assert_eq!(exit_code(&[diagnostic(Level::Warning)]), 0);
    assert_eq!(exit_code(&[diagnostic(Level::Warning), diagnostic(Level::Error)]), 1);
}
