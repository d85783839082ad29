//! Settings of the AI assistant as the bridge to the model reads them: which
//! provider a request goes to with which settings, and what a failed bridge
//! run reports.
use crate::error::{AppError, ErrorKind};
use crate::remote::{spec_str_lowercase, str_lowercase};
use crate::settings::spec_parse_u64;
use crate::text::{chars_of, contains_text, find, opt_view, push_str, signed_decimal, str_eq, string_of_range,
    to_signed_decimal, trim, trim_bounds, trimmed_str};
use vstd::prelude::*;

verus! {

/// A setting's value, trimmed, where it is set and not blank.
pub open spec fn spec_non_empty(value: Option<Seq<char>>) -> Option<Seq<char>> {
    match value {
        Some(v) => if trim(v).len() > 0 { Some(trim(v)) } else { None },
        None => None,
    }
}

/// The value trimmed, or `None` where it is missing or blank.
pub fn non_empty(value: Option<String>) -> (r: Option<String>)
    ensures
        crate::text::opt_view(r) == spec_non_empty(crate::text::opt_view(value)),
{
    match value {
        None => None,
        Some(v) => {
            let cs = chars_of(v.as_str());
            let (a, z) = trim_bounds(&cs, 0, cs.len());
            assert(cs@.subrange(0, cs.len() as int) =~= v@);
            if a == z {
                None
            } else {
                Some(string_of_range(&cs, a, z))
            }
        },
    }
}

/// A numeric setting: its trimmed value where that parses as `u64`, else
/// `default`.
pub open spec fn spec_u64_setting(value: Option<Seq<char>>, default: u64) -> u64 {
    match value {
        Some(v) => match spec_parse_u64(trim(v)) {
            Some(n) => n,
            None => default,
        },
        None => default,
    }
}

/// Reads a numeric setting (see [`spec_u64_setting`]).
pub fn parse_u64_setting(value: Option<String>, default: u64) -> (r: u64)
    ensures
        r == spec_u64_setting(crate::text::opt_view(value), default),
{
    match value {
        None => default,
        Some(v) => {
            let cs = chars_of(v.as_str());
            let (a, z) = trim_bounds(&cs, 0, cs.len());
            assert(cs@.subrange(0, cs.len() as int) =~= v@);
            let t = string_of_range(&cs, a, z);
            match crate::settings::parse_u64(t.as_str()) {
                Some(n) => n,
                None => default,
            }
        },
    }
}


/// The provider an AI request goes to, with the settings it needs.
#[derive(Debug)]
pub enum AiProvider {
    /// CodeBuddy, with its API key and, where set, its internet environment.
    Codebuddy { api_key: String, internet_environment: Option<String> },
    /// An OpenAI-compatible endpoint, with its base URL, key, model and the
    /// most tokens an answer may use.
    OpenAiCompatible { base_url: String, api_key: String, model: String, max_tokens: u64 },
}

/// What the provider settings give: the provider named by the default
/// provider setting (CodeBuddy where it is unset or blank), with each
/// setting it needs trimmed; a missing one, or another provider, is an
/// "invalid input" error with its message.
pub open spec fn spec_ai_provider(
    provider: Option<Seq<char>>,
    codebuddy_api_key: Option<Seq<char>>,
    codebuddy_internet_environment: Option<Seq<char>>,
    base_url: Option<Seq<char>>,
    api_key: Option<Seq<char>>,
    model: Option<Seq<char>>,
    max_tokens: Option<Seq<char>>,
) -> Result<(Seq<char>, Seq<Seq<char>>, Option<Seq<char>>, u64), Seq<char>> {
    let p = match spec_non_empty(provider) {
        Some(p) => p,
        None => "codebuddy"@,
    };
    if p == "codebuddy"@ {
        match spec_non_empty(codebuddy_api_key) {
            None => Err("CodeBuddy API key not configured"@),
            Some(k) => Ok(("codebuddy"@, seq![k], spec_non_empty(codebuddy_internet_environment), 0u64)),
        }
    } else if p == "openai_compatible"@ {
        match spec_non_empty(base_url) {
            None => Err("OpenAI-compatible Base URL not configured"@),
            Some(u) => match spec_non_empty(api_key) {
                None => Err("OpenAI-compatible API key not configured"@),
                Some(k) => match spec_non_empty(model) {
                    None => Err("OpenAI-compatible model not configured"@),
                    Some(m) => Ok(("openai_compatible"@, seq![u, k, m], None, spec_u64_setting(max_tokens, 2000))),
                },
            },
        }
    } else {
        Err("Unsupported AI provider: "@ + p)
    }
}

/// The provider as the spec counterpart of [`spec_ai_provider`]: its name,
/// its text settings in order, its internet environment and its token limit.
pub open spec fn provider_view(p: AiProvider) -> (Seq<char>, Seq<Seq<char>>, Option<Seq<char>>, u64) {
    match p {
        AiProvider::Codebuddy { api_key, internet_environment } => ("codebuddy"@, seq![api_key@], opt_view(internet_environment), 0u64),
        AiProvider::OpenAiCompatible { base_url, api_key, model, max_tokens } => ("openai_compatible"@, seq![base_url@, api_key@, model@], None, max_tokens),
    }
}

/// The CodeBuddy settings of a request: the key is required.
pub fn codebuddy_settings(api_key: Option<String>, internet_environment: Option<String>) -> (r: Result<AiProvider, AppError>)
    ensures
        match spec_non_empty(opt_view(api_key)) {
            None => (r matches Err(e) && e.kind == ErrorKind::InvalidInput && e.message@ == "CodeBuddy API key not configured"@),
            Some(k) => (r matches Ok(p) && provider_view(p) == ("codebuddy"@, seq![k], spec_non_empty(opt_view(internet_environment)), 0u64)),
        },
{
    match non_empty(api_key) {
        None => Err(AppError::invalid_input("CodeBuddy API key not configured")),
        Some(k) => Ok(AiProvider::Codebuddy { api_key: k, internet_environment: non_empty(internet_environment) }),
    }
}

/// The provider an AI request goes to (see [`spec_ai_provider`]).
pub fn ai_provider(
    provider: Option<String>,
    codebuddy_api_key: Option<String>,
    codebuddy_internet_environment: Option<String>,
    base_url: Option<String>,
    api_key: Option<String>,
    model: Option<String>,
    max_tokens: Option<String>,
) -> (r: Result<AiProvider, AppError>)
    ensures
        match spec_ai_provider(
            opt_view(provider),
            opt_view(codebuddy_api_key),
            opt_view(codebuddy_internet_environment),
            opt_view(base_url),
            opt_view(api_key),
            opt_view(model),
            opt_view(max_tokens),
        ) {
            Ok(v) => (r matches Ok(p) && provider_view(p) == v),
            Err(m) => (r matches Err(e) && e.kind == ErrorKind::InvalidInput && e.message@ == m),
        },
{
    let p = match non_empty(provider) {
        Some(p) => p,
        None => "codebuddy".to_string(),
    };
    if str_eq(p.as_str(), "codebuddy") {
        return codebuddy_settings(codebuddy_api_key, codebuddy_internet_environment);
    }
    if str_eq(p.as_str(), "openai_compatible") {
        let u = match non_empty(base_url) {
            Some(u) => u,
            None => return Err(AppError::invalid_input("OpenAI-compatible Base URL not configured")),
        };
        let k = match non_empty(api_key) {
            Some(k) => k,
            None => return Err(AppError::invalid_input("OpenAI-compatible API key not configured")),
        };
        let m = match non_empty(model) {
            Some(m) => m,
            None => return Err(AppError::invalid_input("OpenAI-compatible model not configured")),
        };
        let t = parse_u64_setting(max_tokens, 2000);
        return Ok(AiProvider::OpenAiCompatible { base_url: u, api_key: k, model: m, max_tokens: t });
    }
    let mut msg = "Unsupported AI provider: ".to_string();
    push_str(&mut msg, p.as_str());
    Err(AppError { kind: ErrorKind::InvalidInput, message: msg })
}

/// The first `n` characters of `s` (all of it where it is shorter).
pub open spec fn take_chars(s: Seq<char>, n: int) -> Seq<char> {
    if s.len() <= n {
        s
    } else {
        s.take(n)
    }
}

/// What a failed bridge run reports: its exit code and a hint. The hint
/// comes from the first 1000 characters of its error output (of its
/// standard output where the error output is blank): a readable one for a
/// missing SDK or a missing CodeBuddy CLI, else those characters.
pub open spec fn spec_bridge_failure(exit_code: int, stdout: Seq<char>, stderr: Seq<char>) -> Seq<char> {
    let details = if trim(stderr).len() == 0 {
        stdout
    } else {
        stderr
    };
    let preview = take_chars(details, 1000);
    let normalized = spec_str_lowercase(preview);
    let friendly = if find(normalized, "@tencent-ai/agent-sdk"@) is Some {
        "AI bridge dependency is missing: @tencent-ai/agent-sdk"@
    } else if find(normalized, "codebuddy cli is required"@) is Some {
        "CodeBuddy CLI is required by the Agent SDK but was not found in PATH. Install CodeBuddy Code or set CODEBUDDY_CODE_PATH."@
    } else {
        preview
    };
    "Bridge script failed (exit "@ + signed_decimal(exit_code) + "): "@ + friendly
}

/// What a failed bridge run reports (see [`spec_bridge_failure`]); a run
/// without an exit code reports -1.
pub fn bridge_failure_message(exit_code: Option<i32>, stdout: &str, stderr: &str) -> (r: String)
    ensures
        r@ == spec_bridge_failure(
            match exit_code {
                Some(c) => c as int,
                None => -1,
            },
            stdout@,
            stderr@,
        ),
{
    let code: i32 = match exit_code {
        Some(c) => c,
        None => -1,
    };
    let blank = trimmed_str(stderr);
    let details = if blank.as_str().is_empty() {
        stdout
    } else {
        stderr
    };
    let cs = chars_of(details);
    let n = if cs.len() <= 1000 {
        cs.len()
    } else {
        1000
    };
    let preview = string_of_range(&cs, 0, n);
    proof {
        if cs.len() <= 1000 {
            assert(cs@.subrange(0, n as int) =~= details@);
        } else {
            assert(cs@.subrange(0, n as int) =~= details@.take(1000));
        }
    }
    let normalized = str_lowercase(preview.as_str());
    let mut msg = "Bridge script failed (exit ".to_string();
    let c = to_signed_decimal(code as i64);
    push_str(&mut msg, c.as_str());
    push_str(&mut msg, "): ");
    if contains_text(normalized.as_str(), "@tencent-ai/agent-sdk") {
        push_str(&mut msg, "AI bridge dependency is missing: @tencent-ai/agent-sdk");
    } else if contains_text(normalized.as_str(), "codebuddy cli is required") {
        push_str(
            &mut msg,
            "CodeBuddy CLI is required by the Agent SDK but was not found in PATH. Install CodeBuddy Code or set CODEBUDDY_CODE_PATH.",
        );
    } else {
        push_str(&mut msg, preview.as_str());
    }
    msg
}

} // verus!
