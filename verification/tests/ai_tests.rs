use skills_manager::ai::{ai_provider, bridge_failure_message, codebuddy_settings, AiProvider};

fn s(v: &str) -> Option<String> {
    Some(v.to_string())
}

#[test]
fn codebuddy_is_the_default_provider() {
    match ai_provider(None, s(" key "), s("  "), None, None, None, None).unwrap() {
        AiProvider::Codebuddy { api_key, internet_environment } => {
            assert_eq!(api_key, "key");
            assert_eq!(internet_environment, None);
        }
        _ => panic!("expected codebuddy"),
    }
    assert_eq!(
        ai_provider(s(" "), None, None, None, None, None, None).unwrap_err().message,
        "CodeBuddy API key not configured"
    );
    assert!(codebuddy_settings(s("k"), s("intl")).is_ok());
}

#[test]
fn openai_compatible_needs_url_key_and_model() {
    let p = s("openai_compatible");
    assert_eq!(
        ai_provider(p.clone(), None, None, None, s("k"), s("m"), None).unwrap_err().message,
        "OpenAI-compatible Base URL not configured"
    );
    assert_eq!(
        ai_provider(p.clone(), None, None, s("u"), None, s("m"), None).unwrap_err().message,
        "OpenAI-compatible API key not configured"
    );
    assert_eq!(
        ai_provider(p.clone(), None, None, s("u"), s("k"), None, None).unwrap_err().message,
        "OpenAI-compatible model not configured"
    );
    match ai_provider(p.clone(), None, None, s(" https://x/v1 "), s("k"), s("gpt"), s(" 512 ")).unwrap() {
        AiProvider::OpenAiCompatible { base_url, api_key, model, max_tokens } => {
            assert_eq!((base_url.as_str(), api_key.as_str(), model.as_str(), max_tokens), ("https://x/v1", "k", "gpt", 512));
        }
        _ => panic!("expected openai"),
    }
    match ai_provider(p, None, None, s("u"), s("k"), s("m"), s("lots")).unwrap() {
        AiProvider::OpenAiCompatible { max_tokens, .. } => assert_eq!(max_tokens, 2000),
        _ => panic!("expected openai"),
    }
    assert_eq!(
        ai_provider(s("other"), None, None, None, None, None, None).unwrap_err().message,
        "Unsupported AI provider: other"
    );
}

#[test]
fn bridge_failures_explain_missing_tools() {
    assert_eq!(
        bridge_failure_message(Some(1), "", "Error: Cannot find @Tencent-AI/agent-sdk"),
        "Bridge script failed (exit 1): AI bridge dependency is missing: @tencent-ai/agent-sdk"
    );
    assert_eq!(
        bridge_failure_message(None, "CodeBuddy CLI is required", "  "),
        "Bridge script failed (exit -1): CodeBuddy CLI is required by the Agent SDK but was not found in PATH. Install CodeBuddy Code or set CODEBUDDY_CODE_PATH."
    );
    assert_eq!(bridge_failure_message(Some(2), "out", "boom"), "Bridge script failed (exit 2): boom");
    let long = "x".repeat(1500);
    assert_eq!(bridge_failure_message(Some(3), "", &long).len(), "Bridge script failed (exit 3): ".len() + 1000);
}
