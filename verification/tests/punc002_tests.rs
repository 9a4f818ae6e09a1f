use paperlint::latex::span::{SourceMapping, Span, TextBlock};
use paperlint::rules::punc002::{block_findings, compile_ignore_patterns, is_missing_space_boundary};
use std::ops::Range;

fn mapping(logical: Range<usize>, source: Range<usize>) -> SourceMapping {
    SourceMapping {
        logical,
        source: Span { file: String::new(), start: source.start, end: source.end, line: 0, column: 0 },
    }
}

fn slices<'a>(block: &'a TextBlock, findings: &[(usize, usize)]) -> Vec<&'a str> {
    findings.iter().map(|&(start, end)| &block.text[start..end]).collect()
}

#[test]
fn boundary_classification_follows_frozen_semantics() {
    assert!(is_missing_space_boundary('用', 'L'));
    assert!(is_missing_space_boundary('M', '进'));
    assert!(is_missing_space_boundary('共', '1'));
    assert!(is_missing_space_boundary('0', '个'));
    assert!(!is_missing_space_boundary('3', 'c'), "Latin-digit pair");
    assert!(!is_missing_space_boundary('用', '。'), "CJK punctuation");
    assert!(!is_missing_space_boundary('（', 'L'), "CJK punctuation");
    assert!(!is_missing_space_boundary('M', ')'), "ASCII punctuation");
    assert!(!is_missing_space_boundary('用', '文'), "CJK-CJK");
    assert!(!is_missing_space_boundary('用', '　'), "whitespace char");
}

#[test]
fn contiguous_mapping_reports_both_boundaries() {
    let text = "使用LLM推理".to_string();
    let len = text.len();
    let block = TextBlock { text, mappings: vec![mapping(0..len, 0..len)] };
    let findings = block_findings(&block, &[]);
    assert_eq!(slices(&block, &findings), ["用L", "M推"]);
}

#[test]
fn split_mappings_with_source_gap_skip_the_dropped_boundary() {
    let text = "使用RPython实现".to_string();
    let len = text.len();
    let block = TextBlock { text, mappings: vec![mapping(0..7, 0..7), mapping(7..len, 21..21 + len - 7)] };
    let findings = block_findings(&block, &[]);
    assert_eq!(slices(&block, &findings), ["用R", "n实"]);
}

#[test]
fn split_mappings_with_contiguous_source_keep_the_boundary() {
    let text = "中X英".to_string();
    let len = text.len();
    let block = TextBlock {
        text,
        mappings: vec![mapping(0..3, 0..3), mapping(3..4, 3..4), mapping(4..len, 4..len)],
    };
    let findings = block_findings(&block, &[]);
    assert_eq!(slices(&block, &findings), ["中X", "X英"]);
}

#[test]
fn whitespace_character_boundary_never_triggers() {
    let text = "使用 LLM".to_string();
    let len = text.len();
    let block = TextBlock { text, mappings: vec![mapping(0..len, 0..len)] };
    assert!(block_findings(&block, &[]).is_empty());
}

#[test]
fn invalid_ignore_patterns_are_dropped_without_panicking() {
    let patterns = compile_ignore_patterns(&[
        "LLM".to_string(),
        "([a-z".to_string(),
        "*bad".to_string(),
        "(?P<".to_string(),
    ]);
    assert_eq!(patterns.len(), 1);
    assert_eq!(patterns, vec!["LLM".to_string()]);
}

#[test]
fn exemption_overlap_silences_boundary_while_unrelated_boundaries_report() {
    let text = "第3章。方向1A".to_string();
    let len = text.len();
    let block = TextBlock { text, mappings: vec![mapping(0..len, 0..len)] };
    let patterns = compile_ignore_patterns(&["第\\d+章".to_string()]);
    let findings = block_findings(&block, &patterns);
    assert_eq!(slices(&block, &findings), ["向1"]);
}

#[test]
fn invalid_patterns_given_directly_exempt_nothing() {
    let text = "使用LLM推理".to_string();
    let len = text.len();
    let block = TextBlock { text, mappings: vec![mapping(0..len, 0..len)] };
    let findings = block_findings(&block, &["([a-z".to_string()]);
    assert_eq!(slices(&block, &findings), ["用L", "M推"]);
}

#[test]
fn unmapped_characters_are_not_reported() {
    let block = TextBlock { text: "使用LLM".to_string(), mappings: Vec::new() };
    assert!(block_findings(&block, &[]).is_empty());
}
