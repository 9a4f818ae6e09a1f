use paperlint::latex::span::LocatedRange;
use paperlint::nlp::jieba_analyzer::analyze_words;
use paperlint::nlp::{JiebaAnalyzer, LexicalAnalyzer, PosTag};

fn location(end: usize) -> LocatedRange {
    LocatedRange { block: 0, range: 0..end }
}

#[test]
fn test_analyze_chinese() {
    let analyzer = JiebaAnalyzer::new();
    let text = "我们使用大语言模型";
    let analysis = analyzer.analyze(text, location(text.len()));

    assert!(!analysis.tokens.is_empty());
    assert_eq!(analysis.text, "我们使用大语言模型");
}

#[test]
fn test_analyze_mixed() {
    let analyzer = JiebaAnalyzer::new();
    let text = "使用 LLM 进行推理";
    let analysis = analyzer.analyze(text, location(text.len()));

    assert!(!analysis.tokens.is_empty());
}

#[test]
fn tokens_cover_their_own_bytes_in_the_text() {
    let analyzer = JiebaAnalyzer::new();
    let text = "使用 LLM 进行推理";
    let base = 40;
    let analysis = analyzer.analyze(text, LocatedRange { block: 3, range: base..base + text.len() });
    let mut previous_end = base;
    for token in &analysis.tokens {
        assert_eq!(token.location.block, 3);
        assert!(token.location.range.start >= previous_end);
        let relative = token.location.range.start - base..token.location.range.end - base;
        assert_eq!(&text[relative], token.surface);
        previous_end = token.location.range.end;
    }
}

#[test]
fn words_missing_from_the_text_are_skipped() {
    let words = vec![("模型".to_string(), "n".to_string()), ("缺失".to_string(), "n".to_string())];
    let analysis = analyze_words(&words, "模型", location(6));
    assert_eq!(analysis.tokens.len(), 1);
    assert_eq!(analysis.tokens[0].location.range, 0..6);
}

#[test]
fn tagged_words_map_to_tags_and_byte_ranges() {
    let words = vec![
        ("使用".to_string(), "v".to_string()),
        (" ".to_string(), "x".to_string()),
        ("LLM".to_string(), "eng".to_string()),
        ("模型".to_string(), "n".to_string()),
        ("。".to_string(), "x".to_string()),
    ];
    let text = "使用 LLM模型。";
    let analysis = analyze_words(&words, text, location(text.len()));
    let surfaces: Vec<_> = analysis.tokens.iter().map(|token| token.surface.as_str()).collect();
    assert_eq!(surfaces, ["使用", " ", "LLM", "模型", "。"]);
    assert_eq!(analysis.tokens[0].pos, PosTag::Verb);
    assert_eq!(analysis.tokens[1].pos, PosTag::Punctuation);
    assert_eq!(analysis.tokens[2].pos, PosTag::Other);
    assert_eq!(analysis.tokens[3].pos, PosTag::Noun);
    assert_eq!(analysis.tokens[2].location.range, 7..10);
    assert_eq!(analysis.tokens[4].location.range, 16..19);
}

#[test]
fn tokens_give_back_the_whole_sentence() {
    let analyzer = JiebaAnalyzer::new();
    let text = "使用 LLM 进行推理，效果很好。";
    let analysis = analyzer.analyze(text, location(text.len()));
    let joined: String = analysis.tokens.iter().map(|token| token.surface.as_str()).collect();
    assert_eq!(joined, text);
}
