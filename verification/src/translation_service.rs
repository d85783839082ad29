//! The translation service as the document translator talks to it: its
//! settings, its endpoint, the cache key of a translated document, the units
//! sent in a request and the parsing of the service's answer.
use crate::error::{AppError, ErrorKind};
use crate::text::{
    chars_of, decimal, ends_with, ends_with_at, eq_pred, find, find_in, opt_view, push_str, rfind_char,
    rfind_char_in, rrun, starts_with, starts_with_at, string_of_range, to_decimal, trim,
    trim_bounds, lemma_rfind_char_bound, lemma_find_from_facts,
};
use serde_json::Value;
use vstd::prelude::*;

verus! {

// ---------------------------------------------------------------------------
// Settings
// ---------------------------------------------------------------------------

/// Where the translation service is reached and which model it runs.
pub struct AiTranslationSettings {
    pub api_url: String,
    pub model: String,
    pub has_api_key: bool,
}

/// The settings the user submits.
pub struct SaveAiTranslationSettings {
    pub api_url: String,
    pub model: String,
    pub api_key: Option<String>,
    pub clear_api_key: bool,
}

/// The setting that holds the service's address.
pub const API_URL_SETTING: &'static str = "ai_translation_api_url";
/// The setting that holds the model's name.
pub const MODEL_SETTING: &'static str = "ai_translation_model";
/// The service used when none is configured.
pub const DEFAULT_API_URL: &'static str = "https://api.openai.com/v1";
/// The model used when none is configured.
pub const DEFAULT_MODEL: &'static str = "gpt-5.6-luna";
/// Part of every cache key, so that a new request format invalidates old entries.
pub const TRANSLATION_CACHE_VERSION: &'static str = "ai-translation-v3-numbered-units";

/// A stored setting where it is set and not blank, else the default.
pub open spec fn spec_setting_or_default(stored: Option<Seq<char>>, default_value: Seq<char>) -> Seq<char> {
    match stored {
        Some(v) => if trim(v).len() > 0 { v } else { default_value },
        None => default_value,
    }
}

/// The stored value of a setting, or `default_value` where it is missing or
/// blank.
pub fn setting_or_default(stored: Option<String>, default_value: &str) -> (r: String)
    ensures
        r@ == spec_setting_or_default(opt_view(stored), default_value@),
{
    match stored {
        Some(v) => {
            let cs = chars_of(v.as_str());
            let (a, z) = trim_bounds(&cs, 0, cs.len());
            assert(cs@.subrange(0, cs.len() as int) =~= v@);
            if a < z {
                v
            } else {
                default_value.to_string()
            }
        },
        None => default_value.to_string(),
    }
}

// ---------------------------------------------------------------------------
// Service address
// ---------------------------------------------------------------------------

/// What `url::Url::parse` makes of a string where it accepts it: the
/// serialized URL, its scheme and its host.
pub uninterp spec fn spec_parse_url(s: Seq<char>) -> Option<(Seq<char>, Seq<char>, Option<Seq<char>>)>;

/// The parts of a parsed URL that the translator reads.
#[derive(Debug)]
pub struct ParsedUrl {
    pub serialization: String,
    pub scheme: String,
    pub host: Option<String>,
}

/// `reqwest::Url::parse` (the `url` crate's parser): `None` where the string
/// is not an absolute URL, else the URL's serialization (`as_str`), its scheme
/// and its host (`host_str`). The parsing rules themselves are not restated.
#[verifier::external_body]
fn parse_url(s: &str) -> (r: Option<ParsedUrl>)
    ensures
        match r {
            Some(u) => spec_parse_url(s@) == Some((u.serialization@, u.scheme@, opt_view(u.host))),
            None => spec_parse_url(s@) is None,
        },
{
    match reqwest::Url::parse(s) {
        Ok(u) => Some(ParsedUrl {
            serialization: u.as_str().to_string(),
            scheme: u.scheme().to_string(),
            host: u.host_str().map(|h| h.to_string()),
        }),
        Err(_) => None,
    }
}

/// `value` trimmed and without its trailing slashes.
pub open spec fn trimmed_api_url(value: Seq<char>) -> Seq<char> {
    let t = trim(value);
    t.take(t.len() - rrun(t, eq_pred('/')))
}

/// Why an API address is refused, if it is: it does not parse as a URL, its
/// scheme is not `http` or `https`, or it has no host.
pub open spec fn api_url_problem(value: Seq<char>) -> Option<Seq<char>> {
    match spec_parse_url(trimmed_api_url(value)) {
        None => Some("API 地址格式无效"@),
        Some((_, scheme, host)) => if scheme != "http"@ && scheme != "https"@ {
            Some("API 地址必须以 http:// 或 https:// 开头"@)
        } else if host is None {
            Some("API 地址缺少主机名"@)
        } else {
            None
        },
    }
}

/// Checks an API address: the trimmed address without trailing slashes, or
/// an "invalid input" error that says what is wrong with it.
pub fn validate_api_url(value: &str) -> (r: Result<String, AppError>)
    ensures
        match api_url_problem(value@) {
            None => r matches Ok(u) && u@ == trimmed_api_url(value@),
            Some(m) => r matches Err(e) && e.kind == ErrorKind::InvalidInput && e.message@ == m,
        },
{
    let cs = chars_of(value);
    let (a, z) = trim_bounds(&cs, 0, cs.len());
    assert(cs@.subrange(0, cs.len() as int) =~= value@);
    let k = crate::settings::trailing_run_of(&cs, a, z, '/');
    let trimmed = string_of_range(&cs, a, z - k);
    proof {
        let t = cs@.subrange(a as int, z as int);
        assert(t.take(t.len() - k) =~= trimmed@);
    }
    match parse_url(trimmed.as_str()) {
        None => Err(AppError::invalid_input("API 地址格式无效")),
        Some(u) => {
            if !crate::text::str_eq(u.scheme.as_str(), "http") && !crate::text::str_eq(u.scheme.as_str(), "https") {
                Err(AppError::invalid_input("API 地址必须以 http:// 或 https:// 开头"))
            } else if u.host.is_none() {
                Err(AppError::invalid_input("API 地址缺少主机名"))
            } else {
                Ok(trimmed)
            }
        },
    }
}

/// The chat-completions address for a validated base address: the base
/// itself where it already ends in `/chat/completions`, else the base with
/// `/chat/completions` appended where it ends in `/v1`, else the base with
/// `/v1/chat/completions` appended.
pub open spec fn endpoint_text(base: Seq<char>) -> Seq<char> {
    if ends_with(base, "/chat/completions"@) {
        base
    } else if ends_with(base, "/v1"@) {
        base + "/chat/completions"@
    } else {
        base + "/v1/chat/completions"@
    }
}

/// The service's chat-completions URL for the configured address. Fails as
/// the address check does, or where the completed address does not parse.
pub fn chat_completions_endpoint(api_url: &str) -> (r: Result<ParsedUrl, AppError>)
    ensures
        match api_url_problem(api_url@) {
            Some(m) => r matches Err(e) && e.kind == ErrorKind::InvalidInput && e.message@ == m,
            None => match spec_parse_url(endpoint_text(trimmed_api_url(api_url@))) {
                Some(parts) => r matches Ok(u) && (u.serialization@, u.scheme@, opt_view(u.host)) == parts,
                None => r matches Err(e) && e.kind == ErrorKind::InvalidInput
                    && e.message@ == "无法构造 Chat Completions 地址"@,
            },
        },
{
    let base = match validate_api_url(api_url) {
        Ok(b) => b,
        Err(e) => {
            return Err(e);
        },
    };
    let cs = chars_of(base.as_str());
    let chat = chars_of("/chat/completions");
    let v1 = chars_of("/v1");
    assert(cs@.subrange(0, cs.len() as int) =~= base@);
    let endpoint = if ends_with_at(&cs, 0, cs.len(), &chat) {
        base
    } else if ends_with_at(&cs, 0, cs.len(), &v1) {
        let mut e = base;
        push_str(&mut e, "/chat/completions");
        e
    } else {
        let mut e = base;
        push_str(&mut e, "/v1/chat/completions");
        e
    };
    match parse_url(endpoint.as_str()) {
        Some(u) => Ok(u),
        None => Err(AppError::invalid_input("无法构造 Chat Completions 地址")),
    }
}

/// Whether a request to this endpoint needs an API key that is missing: the
/// official OpenAI host is never called without one.
pub fn requires_missing_api_key(endpoint: &ParsedUrl, has_api_key: bool) -> (r: bool)
    ensures
        r == (opt_view(endpoint.host) == Some("api.openai.com"@) && !has_api_key),
{
    let official = match &endpoint.host {
        Some(h) => crate::text::str_eq(h.as_str(), "api.openai.com"),
        None => false,
    };
    official && !has_api_key
}

/// The official OpenAI endpoint needs an API key: without one a translation
/// fails and asks for it.
pub fn check_api_key(endpoint: &ParsedUrl, has_api_key: bool) -> (r: Result<(), AppError>)
    ensures
        r is Err <==> (opt_view(endpoint.host) == Some("api.openai.com"@) && !has_api_key),
        r matches Err(e) ==> e.kind == ErrorKind::InvalidInput && e.message@ == "请先在设置中配置 AI 翻译 API Key"@,
{
    if requires_missing_api_key(endpoint, has_api_key) {
        Err(AppError::invalid_input("请先在设置中配置 AI 翻译 API Key"))
    } else {
        Ok(())
    }
}

// ---------------------------------------------------------------------------
// Saving the settings
// ---------------------------------------------------------------------------

/// What saving the settings does with the stored API key.
pub enum ApiKeyChange {
    /// The stored key is deleted.
    Delete,
    /// The given key replaces the stored one.
    Store(String),
    /// The stored key stays as it is.
    Keep,
}

/// The settings to store for the submitted form: the checked API address and
/// the trimmed model name, and what happens to the API key. Fails where the
/// address is refused or the model name is blank.
pub fn prepare_translation_settings(input: &SaveAiTranslationSettings) -> (r: Result<(String, String, ApiKeyChange), AppError>)
    ensures
        match api_url_problem(input.api_url@) {
            Some(m) => r matches Err(e) && e.kind == ErrorKind::InvalidInput && e.message@ == m,
            None => if trim(input.model@).len() == 0 {
                r matches Err(e) && e.kind == ErrorKind::InvalidInput && e.message@ == "模型名称不能为空"@
            } else {
                r matches Ok((url, model, change)) && url@ == trimmed_api_url(input.api_url@)
                    && model@ == trim(input.model@) && (if input.clear_api_key {
                        change is Delete
                    } else {
                        match input.api_key {
                            Some(k) => if trim(k@).len() > 0 {
                                change matches ApiKeyChange::Store(s) && s@ == trim(k@)
                            } else {
                                change is Keep
                            },
                            None => change is Keep,
                        }
                    })
            },
        },
{
    let api_url = match validate_api_url(input.api_url.as_str()) {
        Ok(u) => u,
        Err(e) => {
            return Err(e);
        },
    };
    let mc = chars_of(input.model.as_str());
    let (a, z) = trim_bounds(&mc, 0, mc.len());
    assert(mc@.subrange(0, mc.len() as int) =~= input.model@);
    if a == z {
        return Err(AppError::invalid_input("模型名称不能为空"));
    }
    let model = string_of_range(&mc, a, z);
    let change = if input.clear_api_key {
        ApiKeyChange::Delete
    } else {
        match &input.api_key {
            Some(k) => {
                let kc = chars_of(k.as_str());
                let (p, q) = trim_bounds(&kc, 0, kc.len());
                assert(kc@.subrange(0, kc.len() as int) =~= k@);
                if p < q {
                    ApiKeyChange::Store(string_of_range(&kc, p, q))
                } else {
                    ApiKeyChange::Keep
                }
            },
            None => ApiKeyChange::Keep,
        }
    };
    Ok((api_url, model, change))
}


// ---------------------------------------------------------------------------
// Units of a request
// ---------------------------------------------------------------------------

/// The id under which the `i`-th unit is sent: `unit_` and `i` in decimal.
pub open spec fn spec_unit_id(i: nat) -> Seq<char> {
    "unit_"@ + decimal(i)
}

/// The id of the `i`-th unit of a request (see [`spec_unit_id`]).
pub fn unit_id(i: usize) -> (r: String)
    ensures
        r@ == spec_unit_id(i as nat),
{
    let mut out = String::new();
    push_str(&mut out, "unit_");
    let d = to_decimal(i as u128);
    push_str(&mut out, d.as_str());
    out
}

/// The units of a request: each source text under its unit id, in order.
pub fn source_units(source_texts: &[&str]) -> (r: Vec<(String, String)>)
    ensures
        r.len() == source_texts.len(),
        forall|i: int| 0 <= i < r.len() ==> (#[trigger] r@[i]).0@ == spec_unit_id(i as nat)
            && r@[i].1@ == source_texts@[i]@,
{
    let mut out: Vec<(String, String)> = Vec::new();
    let mut i: usize = 0;
    while i < source_texts.len()
        invariant
            i <= source_texts.len(),
            out.len() == i,
            forall|j: int| 0 <= j < i ==> (#[trigger] out@[j]).0@ == spec_unit_id(j as nat)
                && out@[j].1@ == source_texts@[j]@,
        decreases source_texts.len() - i,
    {
        out.push((unit_id(i), source_texts[i].to_string()));
        i += 1;
    }
    out
}

// ---------------------------------------------------------------------------
// Parsing the service's answer
// ---------------------------------------------------------------------------

/// A JSON value as the library reads it: its kind, with the value of a
/// boolean, number (as `serde_json` prints it) or string, and the number of
/// elements of an array.
#[derive(Debug)]
pub enum JsonNode {
    Null,
    Bool(bool),
    Number(String),
    Str(String),
    Array(usize),
    Object,
}

/// The spec counterpart of a [`JsonNode`].
pub enum JsonNodeView {
    Null,
    Bool(bool),
    Number(Seq<char>),
    Str(Seq<char>),
    Array(nat),
    Object,
}

pub open spec fn node_view(n: JsonNode) -> JsonNodeView {
    match n {
        JsonNode::Null => JsonNodeView::Null,
        JsonNode::Bool(b) => JsonNodeView::Bool(b),
        JsonNode::Number(x) => JsonNodeView::Number(x@),
        JsonNode::Str(t) => JsonNodeView::Str(t@),
        JsonNode::Array(k) => JsonNodeView::Array(k as nat),
        JsonNode::Object => JsonNodeView::Object,
    }
}

/// The string a node holds, if it is a string.
pub open spec fn node_string(n: JsonNodeView) -> Option<Seq<char>> {
    match n {
        JsonNodeView::Str(t) => Some(t),
        _ => None,
    }
}

/// The members of the JSON object that `text` is, in the order of the
/// parsed map, each with its value; `None` where `text` is not one JSON
/// object.
pub uninterp spec fn spec_json_object(text: Seq<char>) -> Option<Seq<(Seq<char>, JsonNodeView)>>;

/// The strings of the JSON array of strings that `text` is; `None` where
/// `text` is not one such array.
pub uninterp spec fn spec_json_string_array(text: Seq<char>) -> Option<Seq<Seq<char>>>;

pub open spec fn nodes_view(v: Seq<(String, JsonNode)>) -> Seq<(Seq<char>, JsonNodeView)> {
    v.map_values(|m: (String, JsonNode)| (m.0@, node_view(m.1)))
}

pub open spec fn members_view(v: Seq<(String, Option<String>)>) -> Seq<(Seq<char>, Option<Seq<char>>)> {
    v.map_values(|m: (String, Option<String>)| (m.0@, opt_view(m.1)))
}

/// The members of an object with the string each holds, where it holds one
/// (a unit whose value is not a string counts as missing).
pub open spec fn string_members(v: Seq<(Seq<char>, JsonNodeView)>) -> Seq<(Seq<char>, Option<Seq<char>>)> {
    v.map_values(|m: (Seq<char>, JsonNodeView)| (m.0, node_string(m.1)))
}

/// `serde_json::from_str::<serde_json::Map<String, Value>>`: where `text` is
/// one JSON object, its members, each value told apart by its kind. A `Map`
/// holds each key once, so no key occurs twice. Which texts the parser
/// accepts is not restated here.
#[verifier::external_body]
fn json_object_members(text: &str) -> (r: Option<Vec<(String, JsonNode)>>)
    ensures
        match r {
            Some(v) => spec_json_object(text@) == Some(nodes_view(v@)),
            None => spec_json_object(text@) is None,
        },
        r matches Some(v) ==> forall|i: int, j: int|
            0 <= i < j < v.len() ==> (#[trigger] v@[i]).0@ != (#[trigger] v@[j]).0@,
{
    let m = serde_json::from_str::<serde_json::Map<String, Value>>(text).ok()?;
    let mut out = Vec::new();
    for (k, v) in m {
        out.push((k, match v {
            Value::Null => JsonNode::Null,
            Value::Bool(b) => JsonNode::Bool(b),
            Value::Number(n) => JsonNode::Number(n.to_string()),
            Value::String(t) => JsonNode::Str(t),
            Value::Array(a) => JsonNode::Array(a.len()),
            Value::Object(_) => JsonNode::Object,
        }));
    }
    Some(out)
}

/// The members of an object with their strings (see [`string_members`]).
pub fn member_strings(v: &Vec<(String, JsonNode)>) -> (r: Vec<(String, Option<String>)>)
    ensures
        members_view(r@) == string_members(nodes_view(v@)),
{
    let mut out: Vec<(String, Option<String>)> = Vec::new();
    let mut i: usize = 0;
    while i < v.len()
        invariant
            i <= v.len(),
            members_view(out@) == string_members(nodes_view(v@)).take(i as int),
        decreases v.len() - i,
    {
        let t = match &v[i].1 {
            JsonNode::Str(t) => Some(t.clone()),
            _ => None,
        };
        let ghost before = out@;
        out.push((v[i].0.clone(), t));
        assert(members_view(out@) =~= members_view(before).push((v@[i as int].0@, node_string(node_view(v@[i as int].1)))));
        assert(string_members(nodes_view(v@)).take(i + 1) =~= string_members(nodes_view(v@)).take(i as int).push(
            (v@[i as int].0@, node_string(node_view(v@[i as int].1))),
        ));
        i += 1;
    }
    assert(string_members(nodes_view(v@)).take(v.len() as int) =~= string_members(nodes_view(v@)));
    out
}

/// `serde_json::from_str::<Vec<String>>`: the strings of the JSON array
/// `text`, or `None` where `text` is not a JSON array of strings.
#[verifier::external_body]
fn json_string_array(text: &str) -> (r: Option<Vec<String>>)
    ensures
        match r {
            Some(v) => spec_json_string_array(text@) == Some(crate::text::strs_view(v@)),
            None => spec_json_string_array(text@) is None,
        },
{
    serde_json::from_str::<Vec<String>>(text).ok()
}

/// `t` without a Markdown code fence around it: where `t` opens with
/// `` ```json `` or `` ``` `` and closes with `` ``` ``, what lies between,
/// trimmed; else `t` itself.
pub open spec fn strip_json_fence(t: Seq<char>) -> Seq<char> {
    let rest = if starts_with(t, "```json"@) {
        Some(t.skip(7))
    } else if starts_with(t, "```"@) {
        Some(t.skip(3))
    } else {
        None
    };
    match rest {
        Some(r) => if ends_with(r, "```"@) {
            trim(r.take(r.len() - 3))
        } else {
            t
        },
        None => t,
    }
}

/// Where the part of `t` from its first `open` to its last `close` lies, if
/// `t` has both and the first comes before the last.
pub open spec fn between_range(t: Seq<char>, open: char, close: char) -> Option<(int, int)> {
    match (find(t, seq![open]), rfind_char(t, close)) {
        (Some(a), Some(b)) => if a < b {
            Some((a, b + 1))
        } else {
            None
        },
        _ => None,
    }
}

/// The part of `t` from its first `open` to its last `close` (see
/// [`between_range`]), or `t` itself where there is no such part.
pub open spec fn between(t: Seq<char>, open: char, close: char) -> Seq<char> {
    match between_range(t, open, close) {
        Some((a, b)) => t.subrange(a, b),
        None => t,
    }
}

/// The bounds within `cs` of `strip_json_fence(cs[a..z])`.
fn strip_json_fence_bounds(cs: &[char], a: usize, z: usize) -> (r: (usize, usize))
    requires
        a <= z <= cs.len(),
    ensures
        r.0 <= r.1 <= cs.len(),
        cs@.subrange(r.0 as int, r.1 as int) == strip_json_fence(cs@.subrange(a as int, z as int)),
{
    let ghost t = cs@.subrange(a as int, z as int);
    let json = chars_of("```json");
    let fence = chars_of("```");
    proof {
        reveal_strlit("```json");
        reveal_strlit("```");
    }
    let start = if starts_with_at(cs, a, z, &json) {
        a + 7
    } else if starts_with_at(cs, a, z, &fence) {
        a + 3
    } else {
        return (a, z);
    };
    assert(t.skip(start - a) =~= cs@.subrange(start as int, z as int));
    if ends_with_at(cs, start, z, &fence) {
        let (p, q) = trim_bounds(cs, start, z - 3);
        assert(cs@.subrange(start as int, z as int).take(z - start - 3) =~= cs@.subrange(start as int, z - 3));
        (p, q)
    } else {
        (a, z)
    }
}

/// The bounds within `cs` of the part that [`between_range`] finds in
/// `cs[a..z]`.
fn between_bounds(cs: &[char], a: usize, z: usize, open: char, close: char) -> (r: Option<(usize, usize)>)
    requires
        a <= z <= cs.len(),
    ensures
        match between_range(cs@.subrange(a as int, z as int), open, close) {
            Some((x, y)) => r == Some(((a + x) as usize, (a + y) as usize)) && 0 <= x < y <= z - a,
            None => r is None,
        },
{
    let ghost t = cs@.subrange(a as int, z as int);
    let pat = vec![open];
    let sub = string_of_range(cs, a, z);
    let sc = chars_of(sub.as_str());
    assert(sc@ == t);
    let first = find_in(&sc, 0, sc.len(), pat.as_slice());
    assert(sc@.subrange(0, sc.len() as int) =~= t);
    assert(pat@ == seq![open]);
    let last = rfind_char_in(&sc, 0, sc.len(), close);
    proof {
        lemma_rfind_char_bound(t, close);
        lemma_find_from_facts(t, seq![open], 0);
    }
    match (first, last) {
        (Some(f), Some(l)) => {
            if f < l {
                Some((a + f, a + l + 1))
            } else {
                None
            }
        },
        _ => None,
    }
}

/// The bounds within `cs` of `between(cs[a..z], open, close)`.
fn between_or_all(cs: &[char], a: usize, z: usize, open: char, close: char) -> (r: (usize, usize))
    requires
        a <= z <= cs.len(),
    ensures
        r.0 <= r.1 <= cs.len(),
        cs@.subrange(r.0 as int, r.1 as int) == between(cs@.subrange(a as int, z as int), open, close),
{
    match between_bounds(cs, a, z, open, close) {
        Some((b, e)) => {
            assert(cs@.subrange(b as int, e as int) =~= cs@.subrange(a as int, z as int).subrange(b - a, e - a));
            (b, e)
        },
        None => (a, z),
    }
}

/// The error every failed parse of a translated array reports.
pub open spec fn array_error() -> Seq<char> {
    "AI 返回的译文不是有效的 JSON 字符串数组"@
}

/// `parse_translation_array`: the service's answer read as a JSON array of
/// strings, tried on the trimmed answer, then on it without a code fence,
/// then on the part from its first `[` to its last `]`.
pub open spec fn spec_translation_array(output: Seq<char>) -> Result<Seq<Seq<char>>, Seq<char>> {
    let t = trim(output);
    let wf = strip_json_fence(t);
    match spec_json_string_array(t) {
        Some(v) => Ok(v),
        None => match spec_json_string_array(wf) {
            Some(v) => Ok(v),
            None => match between_range(wf, '[', ']') {
                Some((a, b)) => match spec_json_string_array(wf.subrange(a, b)) {
                    Some(v) => Ok(v),
                    None => Err(array_error()),
                },
                None => Err(array_error()),
            },
        },
    }
}

/// Reads the service's answer as a JSON array of strings (see
/// [`spec_translation_array`]).
pub fn parse_translation_array(output: &str) -> (r: Result<Vec<String>, AppError>)
    ensures
        match spec_translation_array(output@) {
            Ok(v) => r matches Ok(w) && crate::text::strs_view(w@) == v,
            Err(m) => r matches Err(e) && e.kind == ErrorKind::Network && e.message@ == m,
        },
{
    let cs = chars_of(output);
    let (a, z) = trim_bounds(&cs, 0, cs.len());
    assert(cs@.subrange(0, cs.len() as int) =~= output@);
    let trimmed = string_of_range(&cs, a, z);
    if let Some(v) = json_string_array(trimmed.as_str()) {
        return Ok(v);
    }
    let (p, q) = strip_json_fence_bounds(&cs, a, z);
    let wf = string_of_range(&cs, p, q);
    if let Some(v) = json_string_array(wf.as_str()) {
        return Ok(v);
    }
    let (b, e) = match between_bounds(&cs, p, q, '[', ']') {
        Some(r) => r,
        None => {
            return Err(AppError::new(ErrorKind::Network, "AI 返回的译文不是有效的 JSON 字符串数组"));
        },
    };
    assert(cs@.subrange(b as int, e as int) =~= cs@.subrange(p as int, q as int).subrange(b - p, e - p));
    let inner = string_of_range(&cs, b, e);
    match json_string_array(inner.as_str()) {
        Some(v) => Ok(v),
        None => Err(AppError::new(ErrorKind::Network, "AI 返回的译文不是有效的 JSON 字符串数组")),
    }
}

/// The value of the member `key` among `members`, if there is such a member.
pub open spec fn member_value(members: Seq<(Seq<char>, Option<Seq<char>>)>, key: Seq<char>) -> Option<Option<Seq<char>>>
    decreases members.len(),
{
    if members.len() == 0 {
        None
    } else if members[0].0 == key {
        Some(members[0].1)
    } else {
        member_value(members.drop_first(), key)
    }
}

/// The first unit, below `expected_len`, that has no string in `members`.
pub open spec fn first_missing_unit(members: Seq<(Seq<char>, Option<Seq<char>>)>, expected_len: nat, from: nat) -> Option<nat>
    decreases expected_len - from,
{
    if from >= expected_len {
        None
    } else if member_value(members, spec_unit_id(from)) matches Some(Some(_)) {
        first_missing_unit(members, expected_len, from + 1)
    } else {
        Some(from)
    }
}

/// The string of the unit `i` in `members` (where it has one).
pub open spec fn unit_text(members: Seq<(Seq<char>, Option<Seq<char>>)>, i: nat) -> Seq<char> {
    match member_value(members, spec_unit_id(i)) {
        Some(Some(t)) => t,
        _ => Seq::empty(),
    }
}

/// `parse_translation_units`: the translated units of a request of
/// `expected_len` units. Where the answer (trimmed, without a code fence, cut
/// to the part from its first `{` to its last `}`) is a JSON object, every
/// unit id below `expected_len` must map to a string and there must be no
/// other member; the strings come back in unit order. Otherwise the answer is
/// read as an array of exactly `expected_len` strings.
pub open spec fn spec_translation_units(output: Seq<char>, expected_len: nat) -> Result<Seq<Seq<char>>, Seq<char>> {
    let candidate = between(strip_json_fence(trim(output)), '{', '}');
    match spec_json_object(candidate) {
        Some(members) => spec_units_from_members(string_members(members), expected_len),
        None => spec_units_from_array(spec_translation_array(output), expected_len),
    }
}

/// The translated units read from the members of the answer's JSON object:
/// the text under each unit id in order; an error naming the first id
/// missing or not a string, or giving the count where the object holds
/// other ids too.
pub open spec fn spec_units_from_members(members: Seq<(Seq<char>, Option<Seq<char>>)>, expected_len: nat) -> Result<Seq<Seq<char>>, Seq<char>> {
    match first_missing_unit(members, expected_len, 0) {
        Some(i) => Err("AI translation response is missing string key "@ + spec_unit_id(i)),
        None => if members.len() != expected_len {
            Err("AI translation response contains "@ + decimal(members.len()) + " unit IDs, expected "@
                + decimal(expected_len))
        } else {
            Ok(Seq::new(expected_len, |i: int| unit_text(members, i as nat)))
        },
    }
}

/// The translated units read from the answer's JSON array (or the error of
/// reading it): the array, where it holds one text per unit.
pub open spec fn spec_units_from_array(array: Result<Seq<Seq<char>>, Seq<char>>, expected_len: nat) -> Result<Seq<Seq<char>>, Seq<char>> {
    match array {
        Err(m) => Err(m),
        Ok(v) => if v.len() != expected_len {
            Err("AI returned "@ + decimal(v.len()) + " translated segments, but the source contains "@
                + decimal(expected_len) + " segments"@)
        } else {
            Ok(v)
        },
    }
}

/// The value of the member `key` (see [`member_value`]).
fn find_member(members: &Vec<(String, Option<String>)>, key: &str) -> (r: Option<Option<String>>)
    ensures
        match r {
            Some(v) => member_value(members_view(members@), key@) == Some(opt_view(v)),
            None => member_value(members_view(members@), key@) is None,
        },
{
    let ghost mv = members_view(members@);
    let mut i: usize = 0;
    assert(mv.skip(0) =~= mv);
    while i < members.len()
        invariant
            i <= members.len(),
            mv == members_view(members@),
            member_value(mv, key@) == member_value(mv.skip(i as int), key@),
        decreases members.len() - i,
    {
        assert(mv.skip(i as int)[0] == mv[i as int]);
        assert(mv.skip(i as int).drop_first() =~= mv.skip(i + 1));
        if crate::text::str_eq(members[i].0.as_str(), key) {
            return Some(crate::text::clone_opt(&members[i].1));
        }
        i += 1;
    }
    assert(mv.skip(i as int) =~= Seq::<(Seq<char>, Option<Seq<char>>)>::empty());
    None
}

/// Reads the translated units of a request of `expected_len` units from the
/// service's answer (see [`spec_translation_units`]).
pub fn parse_translation_units(output: &str, expected_len: usize) -> (r: Result<Vec<String>, AppError>)
    ensures
        match spec_translation_units(output@, expected_len as nat) {
            Ok(v) => r matches Ok(w) && crate::text::strs_view(w@) == v,
            Err(m) => r matches Err(e) && e.kind == ErrorKind::Network && e.message@ == m,
        },
{
    let cs = chars_of(output);
    let (a, z) = trim_bounds(&cs, 0, cs.len());
    assert(cs@.subrange(0, cs.len() as int) =~= output@);
    let (p, q) = strip_json_fence_bounds(&cs, a, z);
    let (b, e) = between_or_all(&cs, p, q, '{', '}');
    let candidate = string_of_range(&cs, b, e);
    match json_object_members(candidate.as_str()) {
        Some(members) => units_from_members(&member_strings(&members), expected_len),
        None => units_from_array(parse_translation_array(output), expected_len),
    }
}

/// Reads the translated units from the members of the answer's JSON object
/// (see [`spec_units_from_members`]).
pub fn units_from_members(members: &Vec<(String, Option<String>)>, expected_len: usize) -> (r: Result<Vec<String>, AppError>)
    ensures
        match spec_units_from_members(members_view(members@), expected_len as nat) {
            Ok(v) => r matches Ok(w) && crate::text::strs_view(w@) == v,
            Err(m) => r matches Err(e) && e.kind == ErrorKind::Network && e.message@ == m,
        },
{
    let ghost mv = members_view(members@);
    let mut out: Vec<String> = Vec::new();
    let mut i: usize = 0;
    while i < expected_len
        invariant
            i <= expected_len,
            mv == members_view(members@),
            out.len() == i,
            first_missing_unit(mv, expected_len as nat, 0) == first_missing_unit(mv, expected_len as nat, i as nat),
            forall|j: int| 0 <= j < i ==> (#[trigger] out@[j])@ == unit_text(mv, j as nat),
        decreases expected_len - i,
    {
        let key = unit_id(i);
        match find_member(members, key.as_str()) {
            Some(Some(t)) => {
                out.push(t);
            },
            _ => {
                assert(first_missing_unit(mv, expected_len as nat, i as nat) == Some(i as nat));
                let mut msg = String::new();
                push_str(&mut msg, "AI translation response is missing string key ");
                push_str(&mut msg, key.as_str());
                assert(msg@ =~= "AI translation response is missing string key "@ + spec_unit_id(i as nat));
                return Err(AppError { kind: ErrorKind::Network, message: msg });
            },
        }
        i += 1;
    }
    if members.len() != expected_len {
        let mut msg = String::new();
        push_str(&mut msg, "AI translation response contains ");
        let n = to_decimal(members.len() as u128);
        push_str(&mut msg, n.as_str());
        push_str(&mut msg, " unit IDs, expected ");
        let x = to_decimal(expected_len as u128);
        push_str(&mut msg, x.as_str());
        assert(mv.len() == members.len());
        return Err(AppError { kind: ErrorKind::Network, message: msg });
    }
    assert(crate::text::strs_view(out@) =~= Seq::new(expected_len as nat, |j: int| unit_text(mv, j as nat)));
    Ok(out)
}

/// Reads the translated units from the answer's JSON array, or passes its
/// error on (see [`spec_units_from_array`]).
pub fn units_from_array(array: Result<Vec<String>, AppError>, expected_len: usize) -> (r: Result<Vec<String>, AppError>)
    requires
        array matches Err(e) ==> e.kind == ErrorKind::Network,
    ensures
        match spec_units_from_array(
            match array {
                Ok(v) => Ok(crate::text::strs_view(v@)),
                Err(e) => Err(e.message@),
            },
            expected_len as nat,
        ) {
            Ok(v) => r matches Ok(w) && crate::text::strs_view(w@) == v,
            Err(m) => r matches Err(e) && e.kind == ErrorKind::Network && e.message@ == m,
        },
{
    let v = match array {
        Ok(v) => v,
        Err(e) => {
            return Err(e);
        },
    };
    if v.len() != expected_len {
        let mut msg = String::new();
        push_str(&mut msg, "AI returned ");
        let n = to_decimal(v.len() as u128);
        push_str(&mut msg, n.as_str());
        push_str(&mut msg, " translated segments, but the source contains ");
        let x = to_decimal(expected_len as u128);
        push_str(&mut msg, x.as_str());
        push_str(&mut msg, " segments");
        return Err(AppError { kind: ErrorKind::Network, message: msg });
    }
    Ok(v)
}


// ---------------------------------------------------------------------------
// Cache of translated documents
// ---------------------------------------------------------------------------

/// The SHA-256 digest of `data`.
pub uninterp spec fn spec_sha256(data: Seq<u8>) -> Seq<u8>;

/// `sha2::Sha256::digest`: the SHA-256 digest of `data`, which is 32 bytes
/// long. The digest's value is named, not restated.
#[verifier::external_body]
fn sha256(data: &[u8]) -> (r: Vec<u8>)
    ensures
        r@ == spec_sha256(data@),
        r.len() == 32,
{
    <sha2::Sha256 as sha2::Digest>::digest(data).to_vec()
}

/// The bytes hashed for a cache entry: the cache version, the API address,
/// the model and the document, each in UTF-8 and followed by a zero byte.
pub open spec fn cache_key_input(api_url: Seq<char>, model: Seq<char>, content: Seq<char>) -> Seq<u8> {
    vstd::utf8::encode_utf8(TRANSLATION_CACHE_VERSION@) + seq![0u8] + vstd::utf8::encode_utf8(api_url) + seq![0u8]
        + vstd::utf8::encode_utf8(model) + seq![0u8] + vstd::utf8::encode_utf8(content) + seq![0u8]
}

/// The lower-case hexadecimal digit of `d` (below 16).
pub open spec fn hex_digit(d: nat) -> char {
    if d < 10 {
        (('0' as nat) + d) as char
    } else {
        (('a' as nat) + d - 10) as char
    }
}

/// `bytes` in lower-case hexadecimal, two digits a byte.
pub open spec fn hex_of(bytes: Seq<u8>) -> Seq<char>
    decreases bytes.len(),
{
    if bytes.len() == 0 {
        seq![]
    } else {
        hex_of(bytes.drop_last()) + seq![hex_digit((bytes.last() / 16) as nat), hex_digit((bytes.last() % 16) as nat)]
    }
}

/// The cache key of a translation: the SHA-256 digest of its inputs (see
/// [`cache_key_input`]) in lower-case hexadecimal.
pub open spec fn spec_cache_key(api_url: Seq<char>, model: Seq<char>, content: Seq<char>) -> Seq<char> {
    hex_of(spec_sha256(cache_key_input(api_url, model, content)))
}

fn hex_char(d: u8) -> (c: char)
    requires
        d < 16,
    ensures
        c == hex_digit(d as nat),
{
    if d < 10 {
        let c = match d {
            0 => '0',
            1 => '1',
            2 => '2',
            3 => '3',
            4 => '4',
            5 => '5',
            6 => '6',
            7 => '7',
            8 => '8',
            _ => '9',
        };
        c
    } else {
        let c = match d {
            10 => 'a',
            11 => 'b',
            12 => 'c',
            13 => 'd',
            14 => 'e',
            _ => 'f',
        };
        c
    }
}

/// The bytes in lower-case hexadecimal (see [`hex_of`]).
pub fn hex_lower(bytes: &[u8]) -> (r: String)
    ensures
        r@ == hex_of(bytes@),
{
    let mut out = String::new();
    let mut i: usize = 0;
    while i < bytes.len()
        invariant
            i <= bytes.len(),
            out@ == hex_of(bytes@.take(i as int)),
        decreases bytes.len() - i,
    {
        let b = bytes[i];
        assert(bytes@.take(i + 1).drop_last() =~= bytes@.take(i as int));
        crate::text::push_char(&mut out, hex_char(b / 16));
        crate::text::push_char(&mut out, hex_char(b % 16));
        i += 1;
    }
    assert(bytes@.take(bytes.len() as int) =~= bytes@);
    out
}

/// Appends the UTF-8 bytes of `s` and a zero byte.
fn push_field(out: &mut Vec<u8>, s: &str)
    ensures
        final(out)@ == old(out)@ + vstd::utf8::encode_utf8(s@) + seq![0u8],
{
    let b = s.as_bytes();
    let ghost start = out@;
    let mut i: usize = 0;
    while i < b.len()
        invariant
            i <= b.len(),
            b@ == vstd::utf8::encode_utf8(s@),
            out@ == start + b@.take(i as int),
        decreases b.len() - i,
    {
        out.push(b[i]);
        assert(b@.take(i + 1) =~= b@.take(i as int).push(b@[i as int]));
        i += 1;
    }
    assert(b@.take(b.len() as int) =~= b@);
    out.push(0u8);
}

/// The cache key of a translation (see [`spec_cache_key`]).
pub fn translation_cache_key(api_url: &str, model: &str, content: &str) -> (r: String)
    ensures
        r@ == spec_cache_key(api_url@, model@, content@),
{
    let mut data: Vec<u8> = Vec::new();
    push_field(&mut data, TRANSLATION_CACHE_VERSION);
    push_field(&mut data, api_url);
    push_field(&mut data, model);
    push_field(&mut data, content);
    assert(data@ =~= cache_key_input(api_url@, model@, content@));
    let digest = sha256(data.as_slice());
    hex_lower(digest.as_slice())
}

/// Where the translation of a document is cached: `<key>.md` in the cache
/// directory.
pub fn translation_cache_path(cache_root: &str, api_url: &str, model: &str, content: &str) -> (r: String)
    ensures
        r@ == crate::skills::join_path(cache_root@, spec_cache_key(api_url@, model@, content@) + ".md"@),
{
    let mut name = translation_cache_key(api_url, model, content);
    push_str(&mut name, ".md");
    crate::skills::join_path_exec(cache_root, name.as_str())
}


// ---------------------------------------------------------------------------
// Answers of the chat completions service
// ---------------------------------------------------------------------------

/// What `serde_json` finds in the text `body` at the JSON pointer
/// `pointer`: `None` where `body` is not JSON, `Some(None)` where nothing is
/// at that pointer.
pub uninterp spec fn spec_json_pointer(body: Seq<char>, pointer: Seq<char>) -> Option<Option<JsonNodeView>>;

/// The spec counterpart of what [`json_pointer`] gives.
pub open spec fn pointed_view(r: Option<Option<JsonNode>>) -> Option<Option<JsonNodeView>> {
    match r {
        Some(Some(n)) => Some(Some(node_view(n))),
        Some(None) => Some(None),
        None => None,
    }
}

/// `serde_json::from_str::<Value>` on `body`, then `Value::pointer` with
/// `pointer`, the node found told apart by its kind. The contract claims
/// only that the result is what `serde_json` reads there, named by
/// [`spec_json_pointer`].
#[verifier::external_body]
fn json_pointer(body: &str, pointer: &str) -> (r: Option<Option<JsonNode>>)
    ensures
        pointed_view(r) == spec_json_pointer(body@, pointer@),
{
    let v: Value = serde_json::from_str(body).ok()?;
    Some(v.pointer(pointer).map(|n| match n {
        Value::Null => JsonNode::Null,
        Value::Bool(b) => JsonNode::Bool(*b),
        Value::Number(x) => JsonNode::Number(x.to_string()),
        Value::String(t) => JsonNode::Str(t.clone()),
        Value::Array(a) => JsonNode::Array(a.len()),
        Value::Object(_) => JsonNode::Object,
    }))
}

/// The string at a pointer, where the answer is JSON and holds a string
/// there.
pub open spec fn pointed_string(r: Option<Option<JsonNodeView>>) -> Option<Seq<char>> {
    match r {
        Some(Some(n)) => node_string(n),
        _ => None,
    }
}

/// Where a chat answer holds the service's error message.
pub open spec fn error_pointer() -> Seq<char> {
    "/error/message"@
}

/// Where a chat answer holds the message content.
pub open spec fn content_pointer() -> Seq<char> {
    "/choices/0/message/content"@
}

/// Where a chat answer holds the text of the `i`-th part of an array
/// content.
pub open spec fn part_pointer(i: nat) -> Seq<char> {
    content_pointer() + "/"@ + decimal(i) + "/text"@
}

/// What a chat answer `body` holds where it is JSON: the string at
/// [`error_pointer`], the string at [`content_pointer`], and, where that
/// content is an array instead, the `text` string of each of its parts (none
/// for a part without one). `None` where `body` is not JSON.
pub open spec fn spec_chat_response(body: Seq<char>) -> Option<(Option<Seq<char>>, Option<Seq<char>>, Option<Seq<Option<Seq<char>>>>)> {
    match spec_json_pointer(body, ""@) {
        None => None,
        Some(_) => Some((
            pointed_string(spec_json_pointer(body, error_pointer())),
            pointed_string(spec_json_pointer(body, content_pointer())),
            match spec_json_pointer(body, content_pointer()) {
                Some(Some(JsonNodeView::Array(n))) => Some(
                    Seq::new(n, |i: int| pointed_string(spec_json_pointer(body, part_pointer(i as nat)))),
                ),
                _ => None,
            },
        )),
    }
}

/// What an answer of the chat completions service holds (see
/// [`spec_chat_response`]).
pub struct ChatResponse {
    pub error_message: Option<String>,
    pub content_text: Option<String>,
    pub content_parts: Option<Vec<Option<String>>>,
}

/// The answer as the spec counterpart of [`spec_chat_response`].
pub open spec fn chat_response_view(r: ChatResponse) -> (Option<Seq<char>>, Option<Seq<char>>, Option<Seq<Option<Seq<char>>>>) {
    (opt_view(r.error_message), opt_view(r.content_text), match r.content_parts {
        Some(v) => Some(v@.map_values(|p: Option<String>| opt_view(p))),
        None => None,
    })
}

/// The string at `pointer` in `body` (see [`pointed_string`]).
fn string_at(body: &str, pointer: &str) -> (r: Option<String>)
    ensures
        opt_view(r) == pointed_string(spec_json_pointer(body@, pointer@)),
{
    match json_pointer(body, pointer) {
        Some(Some(JsonNode::Str(t))) => Some(t),
        _ => None,
    }
}

/// Reads an answer of the chat completions service (see
/// [`spec_chat_response`]).
pub fn chat_response(body: &str) -> (r: Option<ChatResponse>)
    ensures
        match r {
            Some(c) => spec_chat_response(body@) == Some(chat_response_view(c)),
            None => spec_chat_response(body@) is None,
        },
{
    if json_pointer(body, "").is_none() {
        return None;
    }
    let error_message = string_at(body, "/error/message");
    let content_text = string_at(body, "/choices/0/message/content");
    let content_parts = match json_pointer(body, "/choices/0/message/content") {
        Some(Some(JsonNode::Array(n))) => {
            let mut parts: Vec<Option<String>> = Vec::new();
            let mut i: usize = 0;
            while i < n
                invariant
                    i <= n,
                    parts.len() == i,
                    forall|k: int| 0 <= k < i ==> #[trigger] opt_view(parts@[k]) == pointed_string(
                        spec_json_pointer(body@, part_pointer(k as nat)),
                    ),
                decreases n - i,
            {
                let mut ptr = "/choices/0/message/content".to_string();
                push_str(&mut ptr, "/");
                let d = to_decimal(i as u128);
                push_str(&mut ptr, d.as_str());
                push_str(&mut ptr, "/text");
                assert(ptr@ == part_pointer(i as nat));
                parts.push(string_at(body, ptr.as_str()));
                i += 1;
            }
            Some(parts)
        },
        _ => None,
    };
    let r = ChatResponse { error_message, content_text, content_parts };
    proof {
        match &r.content_parts {
            Some(v) => {
                assert(v@.map_values(|p: Option<String>| opt_view(p)) =~= Seq::new(
                    v@.len(),
                    |i: int| pointed_string(spec_json_pointer(body@, part_pointer(i as nat))),
                ));
            },
            None => {},
        }
    }
    Some(r)
}

/// The texts of the parts that have one, joined.
pub open spec fn joined_parts(parts: Seq<Option<Seq<char>>>) -> Seq<char>
    decreases parts.len(),
{
    if parts.len() == 0 {
        seq![]
    } else {
        joined_parts(parts.drop_last()) + match parts.last() {
            Some(t) => t,
            None => seq![],
        }
    }
}

/// The message content of a chat answer: its text, or the joined texts of
/// its parts; `None` where it has neither.
pub open spec fn spec_message_content(text: Option<Seq<char>>, parts: Option<Seq<Option<Seq<char>>>>) -> Option<Seq<char>> {
    match text {
        Some(t) => Some(t),
        None => match parts {
            Some(p) => Some(joined_parts(p)),
            None => None,
        },
    }
}

/// The message content of a chat answer (see [`spec_message_content`]).
pub fn extract_chat_message_content(response: &ChatResponse) -> (r: Option<String>)
    ensures
        opt_view(r) == spec_message_content(opt_view(response.content_text), chat_response_view(*response).2),
{
    if let Some(t) = &response.content_text {
        return Some(t.clone());
    }
    match &response.content_parts {
        None => None,
        Some(parts) => {
            let ghost pv = parts@.map_values(|p: Option<String>| opt_view(p));
            let mut out = String::new();
            let mut i: usize = 0;
            assert(pv.take(0) =~= Seq::<Option<Seq<char>>>::empty());
            while i < parts.len()
                invariant
                    i <= parts.len(),
                    pv == parts@.map_values(|p: Option<String>| opt_view(p)),
                    out@ == joined_parts(pv.take(i as int)),
                decreases parts.len() - i,
            {
                assert(pv.take(i as int + 1).drop_last() =~= pv.take(i as int));
                assert(pv.take(i as int + 1).last() == opt_view(parts@[i as int]));
                if let Some(t) = &parts[i] {
                    crate::text::push_str(&mut out, t.as_str());
                } else {
                    assert(out@ =~= out@ + Seq::<char>::empty());
                }
                i += 1;
            }
            assert(pv.take(parts.len() as int) =~= pv);
            Some(out)
        },
    }
}

/// The units of a batch request whose translation changes the Markdown
/// structure: the first such index, if any.
pub open spec fn first_changed_unit(sources: Seq<Seq<char>>, translated: Seq<Seq<char>>) -> int {
    crate::text::first_where(unit_indices(sources.len()), changed_pred(sources, translated))
}

/// The indices below `n`, in order.
pub open spec fn unit_indices(n: nat) -> Seq<int> {
    Seq::new(n, |i: int| i)
}

/// The test of a unit whose translation changes its Markdown structure.
pub open spec fn changed_pred(sources: Seq<Seq<char>>, translated: Seq<Seq<char>>) -> spec_fn(int) -> bool {
    |i: int| crate::markdown::markdown_signature(sources[i]) != crate::markdown::markdown_signature(translated[i])
}

/// What a batch request of `sources` yields from the service's answer
/// (HTTP `status`, `body`): an answer that is not JSON, a failure status,
/// an answer without message content, content that does not hold every unit
/// (see [`spec_translation_units`]), and a translation that changes a
/// unit's Markdown structure are each a network error with its message;
/// else the translated units in order.
pub open spec fn spec_batch_result(status: u16, body: Seq<char>, sources: Seq<Seq<char>>) -> Result<Seq<Seq<char>>, Seq<char>> {
    match spec_chat_response(body) {
        None => Err("AI 接口返回了无效 JSON（HTTP "@ + crate::text::decimal(status as nat) + "）"@),
        Some((error_message, text, parts)) => if !(200 <= status < 300) {
            Err("AI 接口返回 HTTP "@ + crate::text::decimal(status as nat) + "："@ + match error_message {
                Some(m) => m,
                None => "未知错误"@,
            })
        } else {
            match spec_message_content(text, parts) {
                None => Err("AI 接口响应中缺少 choices[0].message.content"@),
                Some(output) => match spec_translation_units(output, sources.len()) {
                    Err(m) => Err(m),
                    Ok(units) => {
                        let f = first_changed_unit(sources, units);
                        if f < sources.len() {
                            Err("AI translation changed Markdown structure in unit "@ + crate::text::decimal(f as nat))
                        } else {
                            Ok(units)
                        }
                    },
                },
            }
        },
    }
}

/// What a batch request yields from the service's answer (see
/// [`spec_batch_result`]).
pub fn translation_batch_result(status: u16, body: &str, sources: &[&str]) -> (r: Result<Vec<String>, AppError>)
    ensures
        match spec_batch_result(status, body@, sources@.map_values(|s: &str| s@)) {
            Ok(v) => (r matches Ok(w) && crate::text::strs_view(w@) == v),
            Err(m) => (r matches Err(e) && e.kind == ErrorKind::Network && e.message@ == m),
        },
{
    let ghost sv = sources@.map_values(|s: &str| s@);
    let response = match chat_response(body) {
        Some(c) => c,
        None => {
            let mut msg = "AI 接口返回了无效 JSON（HTTP ".to_string();
            let n = crate::text::to_decimal(status as u128);
            crate::text::push_str(&mut msg, n.as_str());
            crate::text::push_str(&mut msg, "）");
            return Err(AppError { kind: ErrorKind::Network, message: msg });
        },
    };
    if !(200 <= status && status < 300) {
        let mut msg = "AI 接口返回 HTTP ".to_string();
        let n = crate::text::to_decimal(status as u128);
        crate::text::push_str(&mut msg, n.as_str());
        crate::text::push_str(&mut msg, "：");
        match &response.error_message {
            Some(m) => crate::text::push_str(&mut msg, m.as_str()),
            None => crate::text::push_str(&mut msg, "未知错误"),
        }
        return Err(AppError { kind: ErrorKind::Network, message: msg });
    }
    let output = match extract_chat_message_content(&response) {
        Some(o) => o,
        None => return Err(AppError { kind: ErrorKind::Network, message: "AI 接口响应中缺少 choices[0].message.content".to_string() }),
    };
    let units = match parse_translation_units(output.as_str(), sources.len()) {
        Ok(u) => u,
        Err(e) => return Err(e),
    };
    assert(crate::text::strs_view(units@).len() == sources.len());
    let ghost p = changed_pred(sv, crate::text::strs_view(units@));
    let ghost idxs = unit_indices(sv.len());
    let mut i: usize = 0;
    while i < sources.len()
        invariant
            i <= sources.len(),
            units.len() == sources.len(),
            sv == sources@.map_values(|s: &str| s@),
            idxs == unit_indices(sv.len()),
            spec_chat_response(body@) == Some(chat_response_view(response)),
            200 <= status < 300,
            spec_message_content(opt_view(response.content_text), chat_response_view(response).2) == Some(output@),
            spec_translation_units(output@, sv.len()) == Ok::<Seq<Seq<char>>, Seq<char>>(crate::text::strs_view(units@)),
            p == changed_pred(sv, crate::text::strs_view(units@)),
            forall|t: int| 0 <= t < i ==> !p(#[trigger] idxs[t]),
        decreases sources.len() - i,
    {
        if crate::markdown::validate_translated_markdown_unit(sources[i], units[i].as_str()).is_err() {
            assert(sv[i as int] == sources@[i as int]@);
            assert(crate::text::strs_view(units@)[i as int] == units@[i as int]@);
            assert(idxs[i as int] == i as int);
            assert(p(idxs[i as int]));
            proof {
                crate::text::lemma_first_where_is(idxs, p, i as int);
            }
            let mut msg = "AI translation changed Markdown structure in unit ".to_string();
            let n = crate::text::to_decimal(i as u128);
            crate::text::push_str(&mut msg, n.as_str());
            return Err(AppError { kind: ErrorKind::Network, message: msg });
        }
        assert(sv[i as int] == sources@[i as int]@);
        assert(crate::text::strs_view(units@)[i as int] == units@[i as int]@);
        assert(idxs[i as int] == i as int);
        i += 1;
    }
    proof {
        crate::text::lemma_first_where_is(idxs, p, i as int);
    }
    Ok(units)
}

/// A multi-batch translation must give one translated unit per source unit:
/// else it fails, as a network error, saying how many came back.
pub fn check_translated_count(translated: usize, sources: usize) -> (r: Result<(), AppError>)
    ensures
        r is Ok <==> translated == sources,
        r matches Err(e) ==> e.kind == ErrorKind::Network && e.message@ == "AI returned "@
            + crate::text::decimal(translated as nat) + " translated segments, but the source contains "@
            + crate::text::decimal(sources as nat) + " segments"@,
{
    if translated != sources {
        let mut msg = "AI returned ".to_string();
        let a = crate::text::to_decimal(translated as u128);
        crate::text::push_str(&mut msg, a.as_str());
        crate::text::push_str(&mut msg, " translated segments, but the source contains ");
        let b = crate::text::to_decimal(sources as u128);
        crate::text::push_str(&mut msg, b.as_str());
        crate::text::push_str(&mut msg, " segments");
        return Err(AppError { kind: ErrorKind::Network, message: msg });
    }
    Ok(())
}

} // verus!
