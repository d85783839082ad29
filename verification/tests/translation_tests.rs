use skills_manager::markdown::validate_translated_markdown_unit;
use skills_manager::translation::{
    apply_translated_segments, build_translation_batches, collect_markdown_text_segments,
    MAX_BATCH_SOURCE_CHARS,
};

#[test]
fn translation_batches_limit_payload_size_and_preserve_order() {
    let source = vec!["a".repeat(1_200), "b".repeat(1_200), "c".repeat(200)];
    let source_refs: Vec<&str> = source.iter().map(String::as_str).collect();
    let batches = build_translation_batches(&source_refs, 1_500);

    assert_eq!(batches, vec![0..1, 1..3]);
    let flattened: Vec<&str> = batches
        .iter()
        .flat_map(|range| source_refs[range.clone()].iter().copied())
        .collect();
    assert_eq!(flattened, source_refs);
}

#[test]
fn default_translation_batches_stay_below_provider_timeout_threshold() {
    assert!(
        MAX_BATCH_SOURCE_CHARS <= 700,
        "empirical DeepSeek requests above 700 source characters can exceed the 120-second timeout"
    );
}

#[test]
fn markdown_structure_and_code_are_preserved() {
    let source = "---\nname: demo\n---\n# Heading\n\n- **Bold text** and `inline-code`\n\n```rust\nlet value = 1;\n```\n";
    let segments = collect_markdown_text_segments(source);
    assert_eq!(
        segments
            .iter()
            .map(|segment| segment.text.as_str())
            .collect::<Vec<_>>(),
        vec!["# Heading", "- **Bold text** and `inline-code`"]
    );
    let translated = vec![
        "# 标题".to_owned(),
        "- **粗体文本**和 `inline-code`".to_owned(),
    ];
    let result = apply_translated_segments(source, &segments, &translated).unwrap();

    assert!(result.starts_with("---\nname: demo\n---\n"));
    assert!(result.contains("# 标题"));
    assert!(result.contains("- **粗体文本**和 `inline-code`"));
    assert!(result.contains("```rust\nlet value = 1;\n```"));
    assert!(validate_translated_markdown_unit(&segments[1].text, &translated[1]).is_ok());
}

#[test]
fn markdown_translation_units_keep_complete_sentence_context() {
    let source =
        "# Ask Matt\n\nYou don't remember every **skill**, so ask.\n\nUse `ask-matt` now.\n";
    let units = collect_markdown_text_segments(source);
    let texts = units
        .iter()
        .map(|segment| segment.text.as_str())
        .collect::<Vec<_>>();

    assert_eq!(
        texts,
        vec![
            "# Ask Matt",
            "You don't remember every **skill**, so ask.",
            "Use `ask-matt` now.",
        ]
    );
}

#[test]
fn top_level_list_items_keep_their_nested_context() {
    let source = "1. Branch through a prototype:\n   - Use `/handoff` first.\n   - Then use `/prototype`.\n2. Continue with `/implement`.\n";
    let units = collect_markdown_text_segments(source);
    assert_eq!(
        units
            .iter()
            .map(|segment| segment.text.as_str())
            .collect::<Vec<_>>(),
        vec![
            "1. Branch through a prototype:\n   - Use `/handoff` first.\n   - Then use `/prototype`.",
            "2. Continue with `/implement`.",
        ]
    );
}

#[test]
fn markdown_validation_rejects_changed_inline_code_and_links() {
    let source = "Use [`ask-matt`](https://example.com/skill) now.";
    assert!(validate_translated_markdown_unit(
        source,
        "现在使用 [`ask-matt`](https://example.com/skill)。"
    )
    .is_ok());
    assert!(validate_translated_markdown_unit(
        source,
        "现在使用 [`询问-matt`](https://example.com/skill)。"
    )
    .is_err());
    assert!(validate_translated_markdown_unit(
        source,
        "现在使用 [`ask-matt`](https://example.cn/skill)。"
    )
    .is_err());
}

#[test]
fn markdown_validation_allows_emphasis_only_changes() {
    let source = "2. **Branch** — **can you settle every question?** Use `/handoff`.";
    let translated = "2. **分支**——你能解决每个问题吗？使用 `/handoff`。";

    assert!(validate_translated_markdown_unit(source, translated).is_ok());
}

#[test]
fn untranslated_units_give_back_the_document() {
    let source = "# Title\n\nSome text here.\n\n```\ncode\n```\n- item\n";
    let segments = collect_markdown_text_segments(source);
    let same: Vec<String> = segments.iter().map(|s| s.text.clone()).collect();
    assert_eq!(apply_translated_segments(source, &segments, &same).unwrap(), source);
}

#[test]
fn applying_too_few_translations_fails() {
    let source = "# A\n\nB text\n";
    let segments = collect_markdown_text_segments(source);
    assert_eq!(segments.len(), 2);
    assert!(apply_translated_segments(source, &segments, &["x".to_string()]).is_err());
}

#[test]
fn zero_limit_acts_as_a_limit_of_one() {
    let texts = ["ab", "c", ""];
    assert_eq!(build_translation_batches(&texts, 0), vec![0..1, 1..3]);
    assert!(build_translation_batches(&[], 10).is_empty());
}

#[test]
fn segment_ranges_index_the_document_characters() {
    let source = "→ 12\n\nWord";
    let segments = collect_markdown_text_segments(source);
    assert_eq!(segments.len(), 1);
    let chars: Vec<char> = source.chars().collect();
    let r = segments[0].range.clone();
    assert_eq!(chars[r].iter().collect::<String>(), "Word");
}
