use sha2::Digest;
use skills_manager::translation_service::{
    chat_completions_endpoint, hex_lower, parse_translation_array, parse_translation_units,
    prepare_translation_settings, requires_missing_api_key, setting_or_default, source_units,
    translation_cache_key, translation_cache_path, unit_id, validate_api_url, ApiKeyChange,
    SaveAiTranslationSettings,
};

#[test]
fn endpoint_accepts_base_v1_and_full_urls() {
    assert_eq!(
        chat_completions_endpoint("https://api.openai.com/v1")
            .unwrap()
            .serialization,
        "https://api.openai.com/v1/chat/completions"
    );
    assert_eq!(
        chat_completions_endpoint("http://127.0.0.1:11434")
            .unwrap()
            .serialization,
        "http://127.0.0.1:11434/v1/chat/completions"
    );
    assert_eq!(
        chat_completions_endpoint("https://example.com/v1/chat/completions")
            .unwrap()
            .serialization,
        "https://example.com/v1/chat/completions"
    );
}

#[test]
fn parses_plain_fenced_and_wrapped_json_arrays() {
    assert_eq!(
        parse_translation_array(r#"["甲","乙"]"#).unwrap(),
        vec!["甲", "乙"]
    );
    assert_eq!(
        parse_translation_array("```json\n[\"甲\"]\n```").unwrap(),
        vec!["甲"]
    );
    assert_eq!(
        parse_translation_array("结果如下： [\"甲\"]").unwrap(),
        vec!["甲"]
    );
}

#[test]
fn parses_numbered_translation_units_in_source_order() {
    let output = r#"{"unit_1":"第二段","unit_0":"第一段"}"#;
    assert_eq!(
        parse_translation_units(output, 2).unwrap(),
        vec!["第一段", "第二段"]
    );
}

#[test]
fn numbered_translation_units_cannot_be_merged_or_omitted() {
    let output = r#"{"unit_0":"合并后的内容"}"#;
    assert!(parse_translation_units(output, 2).is_err());
}

#[test]
fn unit_errors_name_the_problem() {
    let missing = parse_translation_units(r#"{"unit_0":"a"}"#, 2).err().unwrap();
    assert_eq!(missing.message, "AI translation response is missing string key unit_1");
    let extra = parse_translation_units(r#"{"unit_0":"a","note":"x"}"#, 1).err().unwrap();
    assert_eq!(extra.message, "AI translation response contains 2 unit IDs, expected 1");
    let not_string = parse_translation_units(r#"{"unit_0":1}"#, 1).err().unwrap();
    assert_eq!(not_string.message, "AI translation response is missing string key unit_0");
    let short = parse_translation_units(r#"["a"]"#, 2).err().unwrap();
    assert_eq!(
        short.message,
        "AI returned 1 translated segments, but the source contains 2 segments"
    );
    let junk = parse_translation_array("no json here").err().unwrap();
    assert_eq!(junk.message, "AI 返回的译文不是有效的 JSON 字符串数组");
}

#[test]
fn fenced_unit_objects_are_read() {
    let output = "```json\n{\"unit_0\":\"一\"}\n```";
    assert_eq!(parse_translation_units(output, 1).unwrap(), vec!["一"]);
}

#[test]
fn api_urls_are_trimmed_and_checked() {
    assert_eq!(validate_api_url("  https://x.test/v1// ").unwrap(), "https://x.test/v1");
    assert_eq!(validate_api_url("not a url").err().unwrap().message, "API 地址格式无效");
    assert_eq!(
        validate_api_url("ftp://x.test").err().unwrap().message,
        "API 地址必须以 http:// 或 https:// 开头"
    );
}

#[test]
fn official_endpoint_needs_a_key() {
    let official = chat_completions_endpoint("https://api.openai.com/v1").unwrap();
    assert!(requires_missing_api_key(&official, false));
    assert!(!requires_missing_api_key(&official, true));
    let local = chat_completions_endpoint("http://127.0.0.1:11434").unwrap();
    assert!(!requires_missing_api_key(&local, false));
}

#[test]
fn settings_fall_back_when_blank() {
    assert_eq!(setting_or_default(Some("m".to_string()), "d"), "m");
    assert_eq!(setting_or_default(Some("  ".to_string()), "d"), "d");
    assert_eq!(setting_or_default(None, "d"), "d");
}

#[test]
fn saving_settings_checks_model_and_key() {
    let input = SaveAiTranslationSettings {
        api_url: "https://api.example.com/v1/".to_string(),
        model: "  fast  ".to_string(),
        api_key: Some(" sk ".to_string()),
        clear_api_key: false,
    };
    let (url, model, change) = prepare_translation_settings(&input).unwrap();
    assert_eq!(url, "https://api.example.com/v1");
    assert_eq!(model, "fast");
    assert!(matches!(change, ApiKeyChange::Store(ref k) if k == "sk"));

    let blank_model = SaveAiTranslationSettings {
        model: " ".to_string(),
        ..input
    };
    assert_eq!(
        prepare_translation_settings(&blank_model).err().unwrap().message,
        "模型名称不能为空"
    );

    let clear = SaveAiTranslationSettings {
        api_url: "https://api.example.com".to_string(),
        model: "m".to_string(),
        api_key: Some("k".to_string()),
        clear_api_key: true,
    };
    assert!(matches!(prepare_translation_settings(&clear).unwrap().2, ApiKeyChange::Delete));
}

#[test]
fn units_are_numbered_from_zero() {
    assert_eq!(unit_id(0), "unit_0");
    assert_eq!(unit_id(12), "unit_12");
    let units = source_units(&["a", "b"]);
    assert_eq!(units, vec![("unit_0".to_string(), "a".to_string()), ("unit_1".to_string(), "b".to_string())]);
}

#[test]
fn cache_key_is_sha256_of_the_inputs() {
    assert_eq!(hex_lower(&[0x00, 0x0f, 0xa5, 0xff]), "000fa5ff");
    let key = translation_cache_key("https://api.example.com/v1", "fast-model", "# Example");
    assert_eq!(key.len(), 64);
    assert!(key.chars().all(|c| c.is_ascii_hexdigit() && !c.is_ascii_uppercase()));
    assert_ne!(key, translation_cache_key("https://api.example.com/v1", "other-model", "# Example"));
    assert_ne!(key, translation_cache_key("https://api.example.com/v1", "fast-model", "# Changed"));
    assert_eq!(key, translation_cache_key("https://api.example.com/v1", "fast-model", "# Example"));
    let path = translation_cache_path("/tmp/cache", "u", "m", "c");
    assert!(path.starts_with("/tmp/cache/"));
    assert!(path.ends_with(".md"));
}

#[test]
fn cache_key_matches_a_direct_digest() {
    let mut hasher = sha2::Sha256::new();
    for value in ["ai-translation-v3-numbered-units", "u", "m", "c"] {
        hasher.update(value.as_bytes());
        hasher.update([0]);
    }
    let expected: String = hasher
        .finalize()
        .iter()
        .map(|b| format!("{b:02x}"))
        .collect();
    assert_eq!(translation_cache_key("u", "m", "c"), expected);
}
