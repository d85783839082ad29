use skills_manager::remote::process_failure_message;
use skills_manager::translation_service::{
    check_translated_count, extract_chat_message_content, translation_batch_result, ChatResponse,
};

#[test]
fn batch_answers_are_read_and_checked() {
    let ok = r#"{"choices":[{"message":{"content":"{\"unit_0\":\"你好\",\"unit_1\":\"世界\"}"}}]}"#;
    assert_eq!(translation_batch_result(200, ok, &["Hello", "World"]).unwrap(), vec!["你好".to_string(), "世界".to_string()]);
    let parts = r#"{"choices":[{"message":{"content":[{"text":"{\"unit_0\":"},{"type":"x"},{"text":"\"你好\"}"}]}}]}"#;
    assert_eq!(translation_batch_result(200, parts, &["Hello"]).unwrap(), vec!["你好".to_string()]);
}

#[test]
fn batch_answer_errors() {
    assert_eq!(
        translation_batch_result(200, "not json", &["Hello"]).unwrap_err().message,
        "AI 接口返回了无效 JSON（HTTP 200）"
    );
    assert_eq!(
        translation_batch_result(500, r#"{"error":{"message":"boom"}}"#, &["Hello"]).unwrap_err().message,
        "AI 接口返回 HTTP 500：boom"
    );
    assert_eq!(translation_batch_result(429, "{}", &["Hello"]).unwrap_err().message, "AI 接口返回 HTTP 429：未知错误");
    assert_eq!(
        translation_batch_result(200, r#"{"choices":[]}"#, &["Hello"]).unwrap_err().message,
        "AI 接口响应中缺少 choices[0].message.content"
    );
    let flat = r#"{"choices":[{"message":{"content":"{\"unit_0\":\"标题\"}"}}]}"#;
    assert_eq!(
        translation_batch_result(200, flat, &["# Title"]).unwrap_err().message,
        "AI translation changed Markdown structure in unit 0"
    );
}

#[test]
fn message_content_joins_parts() {
    let r = ChatResponse {
        error_message: None,
        content_text: None,
        content_parts: Some(vec![Some("a".to_string()), None, Some("b".to_string())]),
    };
    assert_eq!(extract_chat_message_content(&r), Some("ab".to_string()));
    let t = ChatResponse { error_message: None, content_text: Some("x".to_string()), content_parts: None };
    assert_eq!(extract_chat_message_content(&t), Some("x".to_string()));
    let none = ChatResponse { error_message: None, content_text: None, content_parts: None };
    assert_eq!(extract_chat_message_content(&none), None);
}

#[test]
fn counts_and_process_failures() {
    assert!(check_translated_count(2, 2).is_ok());
    assert_eq!(
        check_translated_count(1, 2).unwrap_err().message,
        "AI returned 1 translated segments, but the source contains 2 segments"
    );
    assert_eq!(process_failure_message("ssh", "exit status: 255", "  denied \n", Some("out")), "denied");
    assert_eq!(process_failure_message("ssh", "exit status: 1", " ", Some(" partial ")), "partial");
    assert_eq!(process_failure_message("scp", "exit status: 1", "", None), "scp exited with status exit status: 1");
}
