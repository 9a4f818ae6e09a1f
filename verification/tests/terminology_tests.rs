use paperlint::text::terminology::{extract_acronym_definitions, find_acronym_usages};

#[test]
fn extracts_chinese_definition_with_full_width_comma() {
    let text = "大语言模型（Large Language Model，LLM）是一种新型模型。";
    let definitions = extract_acronym_definitions(text);

    assert_eq!(definitions.len(), 1);
    assert_eq!(definitions[0].chinese, Some("大语言模型".to_string()));
    assert_eq!(
        definitions[0].english,
        Some("Large Language Model".to_string())
    );
    assert_eq!(definitions[0].acronym, "LLM");
    assert_eq!(&text[definitions[0].range.clone()], "LLM");
}

#[test]
fn extracts_hyphenated_definition_with_ascii_comma() {
    let text = "检索增强生成（Retrieval-Augmented Generation, RAG）方法。";
    let definitions = extract_acronym_definitions(text);

    assert_eq!(definitions.len(), 1);
    assert_eq!(definitions[0].acronym, "RAG");
}

#[test]
fn extracts_chinese_only_definition() {
    let text = "大语言模型（LLM）进行推理。";
    let definitions = extract_acronym_definitions(text);

    assert_eq!(definitions.len(), 1);
    assert_eq!(definitions[0].chinese, Some("大语言模型".to_string()));
    assert_eq!(definitions[0].english, None);
    assert_eq!(definitions[0].acronym, "LLM");
}

#[test]
fn extracts_title_case_and_lowercase_english_definitions() {
    for text in [
        "We use Large Language Model (LLM) for inference.",
        "We use large language model (LLM) for inference.",
    ] {
        let definitions = extract_acronym_definitions(text);
        assert_eq!(definitions.len(), 1, "{text}");
        assert_eq!(
            definitions[0].english,
            Some(text[7..27].to_string()),
            "{text}"
        );
        assert_eq!(definitions[0].acronym, "LLM");
    }
}

#[test]
fn parenthesized_uppercase_text_without_a_full_form_is_not_a_definition() {
    assert!(extract_acronym_definitions("Results are shown in (NASA).").is_empty());
}

#[test]
fn finds_ascii_acronyms_next_to_chinese_text() {
    let text = "使用LLM和RAG技术进行NLP任务。";
    let usages = find_acronym_usages(text);

    assert_eq!(
        usages
            .iter()
            .map(|usage| usage.acronym.as_str())
            .collect::<Vec<_>>(),
        ["LLM", "RAG", "NLP"]
    );
    for usage in usages {
        assert_eq!(&text[usage.range], usage.acronym);
    }
}
