//! LLM endpoints: which request a completion sends to each provider, how a
//! provider's reply becomes the completion text, and how a classification
//! reply is read.

use crate::text::{has_substring, lowercase, str_contains, str_eq, to_lowercase};
use vstd::prelude::*;

verus! {

/// A configured LLM endpoint.
#[derive(Debug, Clone)]
pub struct LlmEndpoint {
    pub id: i64,
    pub name: String,
    pub provider: String,
    pub endpoint_url: String,
    pub api_key: Option<String>,
    pub model: String,
    pub is_default: bool,
}

// ---------------------------------------------------------------------------
// Classification replies
// ---------------------------------------------------------------------------

/// The cognitive axis named by a lowercased reply: the first of the known
/// axes (in a fixed order of precedence) that the reply mentions, else
/// `General`.
pub open spec fn cognitive_axis_of(lowered: Seq<char>) -> Seq<char> {
    if has_substring(lowered, "require"@) {
        "require"@
    } else if has_substring(lowered, "review"@) {
        "review"@
    } else if has_substring(lowered, "delegate"@) {
        "delegate"@
    } else if has_substring(lowered, "delete"@) {
        "delete"@
    } else if has_substring(lowered, "schedule"@) {
        "schedule"@
    } else if has_substring(lowered, "call"@) {
        "call"@
    } else if has_substring(lowered, "meeting"@) {
        "meeting"@
    } else {
        "General"@
    }
}

/// The context axis named by a lowercased reply.
pub open spec fn context_axis_of(lowered: Seq<char>) -> Seq<char> {
    if has_substring(lowered, "work"@) {
        "Work"@
    } else if has_substring(lowered, "personal"@) {
        "Personal"@
    } else if has_substring(lowered, "urgent"@) || has_substring(lowered, "important"@) {
        "Urgent"@
    } else {
        "General"@
    }
}

/// The labels a classification can produce for the cognitive axis.
pub open spec fn is_cognitive_label(s: Seq<char>) -> bool {
    s == "require"@ || s == "review"@ || s == "delegate"@ || s == "delete"@ || s == "schedule"@
        || s == "call"@ || s == "meeting"@ || s == "General"@
}

/// The labels a classification can produce for the context axis.
pub open spec fn is_context_label(s: Seq<char>) -> bool {
    s == "Work"@ || s == "Personal"@ || s == "Urgent"@ || s == "General"@
}

/// A reply names a cognitive axis by its keyword. Keywords are tried in a
/// fixed precedence (`require`, `review`, `delegate`, `delete`,
/// `schedule`, `call`, `meeting`): a reply that mentions a keyword and no
/// keyword before it is classified under that keyword, and a reply that
/// mentions none of them is classified as `General`.
pub proof fn lemma_cognitive_axis_by_keyword(lowered: Seq<char>)
    ensures
        has_substring(lowered, "require"@) ==> cognitive_axis_of(lowered) == "require"@,
        !has_substring(lowered, "require"@) && has_substring(lowered, "review"@)
            ==> cognitive_axis_of(lowered) == "review"@,
        !has_substring(lowered, "require"@) && !has_substring(lowered, "review"@)
            && has_substring(lowered, "delegate"@) ==> cognitive_axis_of(lowered) == "delegate"@,
        !has_substring(lowered, "require"@) && !has_substring(lowered, "review"@)
            && !has_substring(lowered, "delegate"@) && has_substring(lowered, "delete"@)
            ==> cognitive_axis_of(lowered) == "delete"@,
        !has_substring(lowered, "require"@) && !has_substring(lowered, "review"@)
            && !has_substring(lowered, "delegate"@) && !has_substring(lowered, "delete"@)
            && has_substring(lowered, "schedule"@) ==> cognitive_axis_of(lowered) == "schedule"@,
        !has_substring(lowered, "require"@) && !has_substring(lowered, "review"@)
            && !has_substring(lowered, "delegate"@) && !has_substring(lowered, "delete"@)
            && !has_substring(lowered, "schedule"@) && has_substring(lowered, "call"@)
            ==> cognitive_axis_of(lowered) == "call"@,
        !has_substring(lowered, "require"@) && !has_substring(lowered, "review"@)
            && !has_substring(lowered, "delegate"@) && !has_substring(lowered, "delete"@)
            && !has_substring(lowered, "schedule"@) && !has_substring(lowered, "call"@)
            && has_substring(lowered, "meeting"@) ==> cognitive_axis_of(lowered) == "meeting"@,
        !has_substring(lowered, "require"@) && !has_substring(lowered, "review"@)
            && !has_substring(lowered, "delegate"@) && !has_substring(lowered, "delete"@)
            && !has_substring(lowered, "schedule"@) && !has_substring(lowered, "call"@)
            && !has_substring(lowered, "meeting"@) ==> cognitive_axis_of(lowered) == "General"@,
{
}

/// A reply names a context axis by its keyword, in the precedence
/// `work`, `personal`, then `urgent` or `important`; otherwise `General`.
pub proof fn lemma_context_axis_by_keyword(lowered: Seq<char>)
    ensures
        has_substring(lowered, "work"@) ==> context_axis_of(lowered) == "Work"@,
        !has_substring(lowered, "work"@) && has_substring(lowered, "personal"@)
            ==> context_axis_of(lowered) == "Personal"@,
        !has_substring(lowered, "work"@) && !has_substring(lowered, "personal"@)
            && (has_substring(lowered, "urgent"@) || has_substring(lowered, "important"@))
            ==> context_axis_of(lowered) == "Urgent"@,
        !has_substring(lowered, "work"@) && !has_substring(lowered, "personal"@)
            && !has_substring(lowered, "urgent"@) && !has_substring(lowered, "important"@)
            ==> context_axis_of(lowered) == "General"@,
{
}

/// Reads the axes out of a reply that has already been lowercased.
pub fn classify_lowered(lowered: &str) -> (r: (String, String))
    ensures
        r.0@ == cognitive_axis_of(lowered@),
        r.1@ == context_axis_of(lowered@),
{
    let cognitive = if str_contains(lowered, "require") {
        "require"
    } else if str_contains(lowered, "review") {
        "review"
    } else if str_contains(lowered, "delegate") {
        "delegate"
    } else if str_contains(lowered, "delete") {
        "delete"
    } else if str_contains(lowered, "schedule") {
        "schedule"
    } else if str_contains(lowered, "call") {
        "call"
    } else if str_contains(lowered, "meeting") {
        "meeting"
    } else {
        "General"
    };
    let context = if str_contains(lowered, "work") {
        "Work"
    } else if str_contains(lowered, "personal") {
        "Personal"
    } else if str_contains(lowered, "urgent") || str_contains(lowered, "important") {
        "Urgent"
    } else {
        "General"
    };
    (String::from_str(cognitive), String::from_str(context))
}

/// Reads a cognitive axis and a context axis out of a model's reply,
/// matching keywords without regard to letter case. It always succeeds and
/// always names a context axis; the column names are not consulted.
pub fn parse_classification_response(
    response: &str,
    _cognitive_axis_column: &str,
    _context_axis_column: Option<&str>,
) -> (r: Result<(String, Option<String>), String>)
    ensures
        r is Ok,
        r->Ok_0.0@ == cognitive_axis_of(lowercase(response@)),
        r->Ok_0.1 is Some && r->Ok_0.1->Some_0@ == context_axis_of(lowercase(response@)),
        is_cognitive_label(r->Ok_0.0@) && is_context_label(r->Ok_0.1->Some_0@),
{
    let lowered = to_lowercase(response);
    let (cognitive, context) = classify_lowered(lowered.as_str());
    Ok((cognitive, Some(context)))
}


// ---------------------------------------------------------------------------
// Completion requests
// ---------------------------------------------------------------------------

/// The wire format a provider speaks.
#[derive(Debug, Clone, Copy, PartialEq, Eq)]
pub enum LlmApi {
    /// OpenAI chat completions (`model`, `messages`, `temperature`).
    OpenAi,
    /// Anthropic messages (`model`, `messages`, `max_tokens`).
    Anthropic,
    /// A local server speaking the OpenAI chat completions format.
    Local,
}

/// One chat message of a request.
#[derive(Debug, Clone)]
pub struct ChatMessage {
    pub role: String,
    pub content: String,
}

/// One HTTP header of a request.
#[derive(Debug, Clone)]
pub struct Header {
    pub name: String,
    pub value: String,
}

/// The HTTP request for a completion, less the sampling temperature that
/// the caller adds to OpenAI-format bodies.
#[derive(Debug, Clone)]
pub struct LlmRequest {
    pub api: LlmApi,
    pub url: String,
    pub headers: Vec<Header>,
    pub model: String,
    pub messages: Vec<ChatMessage>,
    pub max_tokens: Option<u32>,
}

pub struct LlmRequestView {
    pub api: LlmApi,
    pub url: Seq<char>,
    pub headers: Seq<(Seq<char>, Seq<char>)>,
    pub model: Seq<char>,
    pub messages: Seq<(Seq<char>, Seq<char>)>,
    pub max_tokens: Option<u32>,
}

impl View for LlmRequest {
    type V = LlmRequestView;

    open spec fn view(&self) -> LlmRequestView {
        LlmRequestView {
            api: self.api,
            url: self.url@,
            headers: self.headers@.map_values(|h: Header| (h.name@, h.value@)),
            model: self.model@,
            messages: self.messages@.map_values(|m: ChatMessage| (m.role@, m.content@)),
            max_tokens: self.max_tokens,
        }
    }
}

/// The URL to post to: the configured one, or the provider's default.
pub open spec fn url_or(configured: Seq<char>, default: Seq<char>) -> Seq<char> {
    if configured.len() == 0 {
        default
    } else {
        configured
    }
}

/// The request a completion sends for an endpoint, or why none is sent.
pub open spec fn completion_request_spec(
    provider: Seq<char>,
    endpoint_url: Seq<char>,
    api_key: Option<Seq<char>>,
    model: Seq<char>,
    system: Seq<char>,
    user: Seq<char>,
) -> Result<LlmRequestView, Seq<char>> {
    if provider == "openai"@ {
        match api_key {
            None => Err("OpenAI requires an API key"@),
            Some(key) => Ok(LlmRequestView {
                api: LlmApi::OpenAi,
                url: url_or(endpoint_url, "https://api.openai.com/v1/chat/completions"@),
                headers: seq![("Authorization"@, "Bearer "@ + key), ("Content-Type"@, "application/json"@)],
                model,
                messages: seq![("system"@, system), ("user"@, user)],
                max_tokens: None,
            }),
        }
    } else if provider == "anthropic"@ {
        match api_key {
            None => Err("Anthropic requires an API key"@),
            Some(key) => Ok(LlmRequestView {
                api: LlmApi::Anthropic,
                url: url_or(endpoint_url, "https://api.anthropic.com/v1/messages"@),
                headers: seq![
                    ("x-api-key"@, key),
                    ("anthropic-version"@, "2023-06-01"@),
                    ("Content-Type"@, "application/json"@),
                ],
                model,
                messages: seq![("user"@, system + "\n\n"@ + user)],
                max_tokens: Some(1024u32),
            }),
        }
    } else if provider == "local"@ {
        if endpoint_url.len() == 0 {
            Err("Local provider requires an endpoint_url"@)
        } else {
            Ok(LlmRequestView {
                api: LlmApi::Local,
                url: endpoint_url,
                headers: seq![("Content-Type"@, "application/json"@)],
                model,
                messages: seq![("system"@, system), ("user"@, user)],
                max_tokens: None,
            })
        }
    } else if provider == "bedrock"@ {
        Err("Bedrock provider not yet implemented"@)
    } else {
        Err("Unknown provider: "@ + provider)
    }
}

/// Where a completion is posted, and what it carries. A request is made
/// for `openai` and `anthropic` exactly when an API key is configured, and
/// for `local` exactly when an endpoint URL is. A configured endpoint URL is
/// always the one posted to; a provider's public URL is used only when none
/// is configured. The request carries the configured model, sends the API
/// key, and ends with the user's prompt in a `user` message that the
/// system prompt precedes.
pub proof fn lemma_completion_request_targets(
    provider: Seq<char>,
    endpoint_url: Seq<char>,
    api_key: Option<Seq<char>>,
    model: Seq<char>,
    system: Seq<char>,
    user: Seq<char>,
)
    ensures
        ({
            let r = completion_request_spec(provider, endpoint_url, api_key, model, system, user);
            &&& r is Ok <==> ((provider == "openai"@ || provider == "anthropic"@) && api_key is Some)
                || (provider == "local"@ && endpoint_url.len() > 0)
            &&& r is Ok && endpoint_url.len() > 0 ==> r->Ok_0.url == endpoint_url
            &&& r is Ok && endpoint_url.len() == 0 && provider == "openai"@
                ==> r->Ok_0.url == "https://api.openai.com/v1/chat/completions"@
            &&& r is Ok && endpoint_url.len() == 0 && provider == "anthropic"@
                ==> r->Ok_0.url == "https://api.anthropic.com/v1/messages"@
            &&& r is Ok ==> r->Ok_0.model == model
            &&& r is Ok && provider == "openai"@
                ==> r->Ok_0.headers.contains(("Authorization"@, "Bearer "@ + api_key->0))
            &&& r is Ok && provider == "anthropic"@ ==> r->Ok_0.headers.contains(("x-api-key"@, api_key->0))
            &&& r is Ok ==> r->Ok_0.messages.len() > 0 && r->Ok_0.messages.last().0 == "user"@
                && user.is_suffix_of(r->Ok_0.messages.last().1)
            &&& r is Ok && provider != "anthropic"@ ==> r->Ok_0.messages[0] == ("system"@, system)
            &&& r is Ok && provider == "anthropic"@ ==> system.is_prefix_of(r->Ok_0.messages[0].1)
        }),
{
    reveal_strlit("openai");
    reveal_strlit("anthropic");
    reveal_strlit("local");
    reveal_strlit("bedrock");
    assert("openai"@.len() == 6 && "anthropic"@.len() == 9 && "local"@.len() == 5 && "bedrock"@.len() == 7);
    let r = completion_request_spec(provider, endpoint_url, api_key, model, system, user);
    if provider == "openai"@ {
        if let Some(key) = api_key {
            let q = r->Ok_0;
            assert(q.url == url_or(endpoint_url, "https://api.openai.com/v1/chat/completions"@));
            assert(q.headers[0] == ("Authorization"@, "Bearer "@ + key));
            assert(q.messages.last() == ("user"@, user));
        }
    } else if provider == "anthropic"@ {
        if let Some(key) = api_key {
            let q = r->Ok_0;
            assert(q.url == url_or(endpoint_url, "https://api.anthropic.com/v1/messages"@));
            assert(q.headers[0] == ("x-api-key"@, key));
            let c = system + "\n\n"@ + user;
            assert(q.messages.last() == ("user"@, c));
            assert(q.messages[0] == ("user"@, c));
            assert(c.subrange(c.len() - user.len(), c.len() as int) =~= user);
            assert(c.subrange(0, system.len() as int) =~= system);
        }
    } else if provider == "local"@ {
        if endpoint_url.len() > 0 {
            let q = r->Ok_0;
            assert(q.url == endpoint_url);
            assert(q.messages.last() == ("user"@, user));
        }
    } else {
        assert(r is Err);
    }
}

pub open spec fn opt_string_view(o: Option<String>) -> Option<Seq<char>> {
    match o {
        Some(s) => Some(s@),
        None => None,
    }
}

pub open spec fn request_result_view(r: Result<LlmRequest, String>) -> Result<LlmRequestView, Seq<char>> {
    match r {
        Ok(q) => Ok(q@),
        Err(e) => Err(e@),
    }
}

fn header(name: &str, value: &str) -> (h: Header)
    ensures
        h.name@ == name@,
        h.value@ == value@,
{
    Header { name: String::from_str(name), value: String::from_str(value) }
}

fn message(role: &str, content: &str) -> (m: ChatMessage)
    ensures
        m.role@ == role@,
        m.content@ == content@,
{
    ChatMessage { role: String::from_str(role), content: String::from_str(content) }
}

fn pick_url(configured: &str, default: &str) -> (u: String)
    ensures
        u@ == url_or(configured@, default@),
{
    if configured.is_empty() {
        String::from_str(default)
    } else {
        String::from_str(configured)
    }
}

/// Decides what request a completion sends to an endpoint, by provider:
/// `openai` and `anthropic` need an API key, `local` needs an endpoint URL,
/// `bedrock` is not supported, and any other provider is unknown.
pub fn plan_completion(endpoint: &LlmEndpoint, system_prompt: &str, user_prompt: &str) -> (r: Result<LlmRequest, String>)
    ensures
        request_result_view(r) == completion_request_spec(
            endpoint.provider@,
            endpoint.endpoint_url@,
            opt_string_view(endpoint.api_key),
            endpoint.model@,
            system_prompt@,
            user_prompt@,
        ),
{
    let provider = endpoint.provider.as_str();
    if str_eq(provider, "openai") {
        match &endpoint.api_key {
            None => Err(String::from_str("OpenAI requires an API key")),
            Some(key) => {
                let mut bearer = String::from_str("Bearer ");
                bearer.append(key.as_str());
                let mut headers: Vec<Header> = Vec::new();
                headers.push(header("Authorization", bearer.as_str()));
                headers.push(header("Content-Type", "application/json"));
                let mut messages: Vec<ChatMessage> = Vec::new();
                messages.push(message("system", system_prompt));
                messages.push(message("user", user_prompt));
                let req = LlmRequest {
                    api: LlmApi::OpenAi,
                    url: pick_url(endpoint.endpoint_url.as_str(), "https://api.openai.com/v1/chat/completions"),
                    headers,
                    model: endpoint.model.clone(),
                    messages,
                    max_tokens: None,
                };
                proof {
                    let spec = completion_request_spec(
                        endpoint.provider@, endpoint.endpoint_url@, opt_string_view(endpoint.api_key),
                        endpoint.model@, system_prompt@, user_prompt@);
                    assert(req@.headers =~= spec->Ok_0.headers);
                    assert(req@.messages =~= spec->Ok_0.messages);
                }
                Ok(req)
            },
        }
    } else if str_eq(provider, "anthropic") {
        match &endpoint.api_key {
            None => Err(String::from_str("Anthropic requires an API key")),
            Some(key) => {
                let mut headers: Vec<Header> = Vec::new();
                headers.push(header("x-api-key", key.as_str()));
                headers.push(header("anthropic-version", "2023-06-01"));
                headers.push(header("Content-Type", "application/json"));
                let mut combined = String::from_str(system_prompt);
                combined.append("\n\n");
                combined.append(user_prompt);
                let mut messages: Vec<ChatMessage> = Vec::new();
                messages.push(message("user", combined.as_str()));
                let req = LlmRequest {
                    api: LlmApi::Anthropic,
                    url: pick_url(endpoint.endpoint_url.as_str(), "https://api.anthropic.com/v1/messages"),
                    headers,
                    model: endpoint.model.clone(),
                    messages,
                    max_tokens: Some(1024),
                };
                proof {
                    let spec = completion_request_spec(
                        endpoint.provider@, endpoint.endpoint_url@, opt_string_view(endpoint.api_key),
                        endpoint.model@, system_prompt@, user_prompt@);
                    assert(req@.headers =~= spec->Ok_0.headers);
                    assert(req@.messages =~= spec->Ok_0.messages);
                }
                Ok(req)
            },
        }
    } else if str_eq(provider, "local") {
        if endpoint.endpoint_url.as_str().is_empty() {
            return Err(String::from_str("Local provider requires an endpoint_url"));
        }
        let mut headers: Vec<Header> = Vec::new();
        headers.push(header("Content-Type", "application/json"));
        let mut messages: Vec<ChatMessage> = Vec::new();
        messages.push(message("system", system_prompt));
        messages.push(message("user", user_prompt));
        let req = LlmRequest {
            api: LlmApi::Local,
            url: endpoint.endpoint_url.clone(),
            headers,
            model: endpoint.model.clone(),
            messages,
            max_tokens: None,
        };
        proof {
            let spec = completion_request_spec(
                endpoint.provider@, endpoint.endpoint_url@, opt_string_view(endpoint.api_key),
                endpoint.model@, system_prompt@, user_prompt@);
            assert(req@.headers =~= spec->Ok_0.headers);
            assert(req@.messages =~= spec->Ok_0.messages);
        }
        Ok(req)
    } else if str_eq(provider, "bedrock") {
        Err(String::from_str("Bedrock provider not yet implemented"))
    } else {
        let mut msg = String::from_str("Unknown provider: ");
        msg.append(provider);
        Err(msg)
    }
}

// ---------------------------------------------------------------------------
// Completion replies
// ---------------------------------------------------------------------------

/// What came back from a provider.
#[derive(Debug, Clone)]
pub enum LlmReply {
    /// The request could not be sent; the transport's error text.
    SendFailed(String),
    /// The provider answered with a non-success status.
    HttpError { status: String, body: String },
    /// The body was not the provider's JSON; the decoder's error text.
    Unparsable(String),
    /// The body was decoded; the text of its first choice or content
    /// block, if it had one.
    Parsed(Option<String>),
}

/// How error messages name a provider.
pub open spec fn provider_label(api: LlmApi) -> Seq<char> {
    match api {
        LlmApi::OpenAi => "OpenAI"@,
        LlmApi::Anthropic => "Anthropic"@,
        LlmApi::Local => "local LLM"@,
    }
}

/// How error messages name a failing HTTP status.
pub open spec fn status_error_label(api: LlmApi) -> Seq<char> {
    match api {
        LlmApi::OpenAi => "OpenAI API error"@,
        LlmApi::Anthropic => "Anthropic API error"@,
        LlmApi::Local => "Local LLM error"@,
    }
}

/// The completion text, or the error message, for a reply.
pub open spec fn completion_text_spec(api: LlmApi, reply: LlmReply) -> Result<Seq<char>, Seq<char>> {
    match reply {
        LlmReply::SendFailed(e) => Err("Failed to call "@ + provider_label(api) + ": "@ + e@),
        LlmReply::HttpError { status, body } => Err(status_error_label(api) + " ("@ + status@ + "): "@ + body@),
        LlmReply::Unparsable(e) => Err("Failed to parse "@ + provider_label(api) + " response: "@ + e@),
        LlmReply::Parsed(None) => Err("No response from "@ + provider_label(api)),
        LlmReply::Parsed(Some(t)) => Ok(t@),
    }
}

/// A completion succeeds exactly when the provider's reply was decoded and
/// held a text, and then it is that text; a failure ends with the detail
/// the transport, the provider or the decoder gave.
pub proof fn lemma_completion_text_outcome(api: LlmApi, reply: LlmReply)
    ensures
        completion_text_spec(api, reply) is Ok <==> reply matches LlmReply::Parsed(Some(_)),
        reply matches LlmReply::Parsed(Some(t)) ==> completion_text_spec(api, reply) == Ok::<Seq<char>, Seq<char>>(t@),
        reply matches LlmReply::SendFailed(e) ==> e@.is_suffix_of(completion_text_spec(api, reply)->Err_0),
        reply matches LlmReply::Unparsable(e) ==> e@.is_suffix_of(completion_text_spec(api, reply)->Err_0),
        reply matches LlmReply::HttpError { body, .. } ==> body@.is_suffix_of(completion_text_spec(api, reply)->Err_0),
{
    match reply {
        LlmReply::SendFailed(e) => {
            let m = completion_text_spec(api, reply)->Err_0;
            assert(m.subrange(m.len() - e@.len(), m.len() as int) =~= e@);
        },
        LlmReply::Unparsable(e) => {
            let m = completion_text_spec(api, reply)->Err_0;
            assert(m.subrange(m.len() - e@.len(), m.len() as int) =~= e@);
        },
        LlmReply::HttpError { status, body } => {
            let m = completion_text_spec(api, reply)->Err_0;
            assert(m.subrange(m.len() - body@.len(), m.len() as int) =~= body@);
        },
        _ => {},
    }
}

fn label(api: LlmApi) -> (s: &'static str)
    ensures
        s@ == provider_label(api),
{
    match api {
        LlmApi::OpenAi => "OpenAI",
        LlmApi::Anthropic => "Anthropic",
        LlmApi::Local => "local LLM",
    }
}

/// Turns a provider's reply into the completion text or an error message
/// that names the provider.
pub fn completion_text(api: LlmApi, reply: LlmReply) -> (r: Result<String, String>)
    ensures
        match r {
            Ok(t) => completion_text_spec(api, reply) == Ok::<Seq<char>, Seq<char>>(t@),
            Err(e) => completion_text_spec(api, reply) == Err::<Seq<char>, Seq<char>>(e@),
        },
{
    match reply {
        LlmReply::SendFailed(e) => {
            let mut msg = String::from_str("Failed to call ");
            msg.append(label(api));
            msg.append(": ");
            msg.append(e.as_str());
            Err(msg)
        },
        LlmReply::HttpError { status, body } => {
            let mut msg = String::from_str(match api {
                LlmApi::OpenAi => "OpenAI API error",
                LlmApi::Anthropic => "Anthropic API error",
                LlmApi::Local => "Local LLM error",
            });
            msg.append(" (");
            msg.append(status.as_str());
            msg.append("): ");
            msg.append(body.as_str());
            Err(msg)
        },
        LlmReply::Unparsable(e) => {
            let mut msg = String::from_str("Failed to parse ");
            msg.append(label(api));
            msg.append(" response: ");
            msg.append(e.as_str());
            Err(msg)
        },
        LlmReply::Parsed(None) => {
            let mut msg = String::from_str("No response from ");
            msg.append(label(api));
            Err(msg)
        },
        LlmReply::Parsed(Some(t)) => Ok(t),
    }
}

} // verus!
