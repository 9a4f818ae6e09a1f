use paperlint::text::chars::{calculate_stats, effective_length};
use paperlint::text::language::{detect_language, Language};
use paperlint::text::sentence::{logical_base_span, segment_sentences};

#[test]
fn test_chinese_stats() {
    let stats = calculate_stats("这是中文测试");
    assert_eq!(stats.cjk_chars, 6);
    assert_eq!(stats.latin_words, 0);
    assert_eq!(stats.effective_length, 6);
}

#[test]
fn test_english_stats() {
    let stats = calculate_stats("This is a test");
    assert_eq!(stats.cjk_chars, 0);
    assert_eq!(stats.latin_words, 4);
    assert_eq!(stats.effective_length, 4);
}

#[test]
fn test_mixed_stats() {
    let stats = calculate_stats("使用 LLM 进行推理");
    assert_eq!(stats.cjk_chars, 6);
    assert_eq!(stats.latin_words, 1);
    assert_eq!(stats.effective_length, 7);
}

#[test]
fn test_with_numbers() {
    let stats = calculate_stats("共有 100 个样本");
    assert_eq!(stats.cjk_chars, 5);
    assert_eq!(stats.numeric_tokens, 1);
    assert_eq!(stats.effective_length, 6);
}

#[test]
fn stats_split_on_punctuation_and_skip_mixed_tokens() {
    let stats = calculate_stats("GPT4 uses 3.5, v2.");
    assert_eq!(stats.latin_words, 1);
    assert_eq!(stats.numeric_tokens, 2);
    assert_eq!(stats.effective_length, 3);
}

#[test]
fn effective_length_counts_english_words_by_whitespace() {
    assert_eq!(effective_length("  one two,three  ", Language::English), 2);
    assert_eq!(effective_length("使用 LLM", Language::Chinese), 3);
    assert_eq!(effective_length("", Language::Mixed), 0);
}

#[test]
fn test_detect_chinese() {
    assert_eq!(detect_language("这是中文文本"), Language::Chinese);
    assert_eq!(detect_language("大语言模型"), Language::Chinese);
}

#[test]
fn test_detect_english() {
    assert_eq!(detect_language("This is English text"), Language::English);
    assert_eq!(detect_language("Large Language Model"), Language::English);
}

#[test]
fn test_detect_mixed() {
    assert_eq!(detect_language("使用 LLM 进行推理"), Language::Chinese);
    assert_eq!(detect_language("LLM 大语言模型"), Language::Chinese);
}

#[test]
fn detect_language_ties_and_empty_text_are_mixed() {
    assert_eq!(detect_language("ab中文"), Language::Mixed);
    assert_eq!(detect_language("123 ..."), Language::Mixed);
}

#[test]
fn test_chinese_sentences() {
    let sentences = segment_sentences("这是第一句。这是第二句。", &logical_base_span());
    assert_eq!(sentences.len(), 2);
    assert_eq!(sentences[0].text, "这是第一句。");
    assert_eq!(sentences[1].text, "这是第二句。");
}

#[test]
fn test_english_sentences() {
    let sentences = segment_sentences("This is first. This is second.", &logical_base_span());
    assert_eq!(sentences.len(), 2);
    assert_eq!(sentences[0].text, "This is first.");
    assert_eq!(sentences[1].text, "This is second.");
}

#[test]
fn test_mixed_punctuation() {
    let sentences = segment_sentences("中文句子。English sentence. 混合！", &logical_base_span());
    assert_eq!(sentences.len(), 3);
    assert_eq!(sentences[0].text, "中文句子。");
    assert_eq!(sentences[1].text, "English sentence.");
    assert_eq!(sentences[2].text, "混合！");
}

#[test]
fn range_accounts_for_trimmed_leading_and_trailing_whitespace() {
    let text = " \r\n  中文句子。  ";
    let sentences = segment_sentences(text, &logical_base_span());
    assert_eq!(
        sentences[0].range,
        text.find('中').unwrap()..text.find('。').unwrap() + 3
    );
    assert_eq!(&text[sentences[0].range.clone()], "中文句子。");
}

#[test]
fn unterminated_tail_is_a_sentence_and_blank_pieces_are_dropped() {
    let sentences = segment_sentences("。 。 tail ", &logical_base_span());
    assert_eq!(sentences.len(), 3);
    assert_eq!(sentences[2].text, "tail");
    assert_eq!(sentences[2].range, 8..12);
    assert_eq!(sentences[2].span.start, 8);
}
