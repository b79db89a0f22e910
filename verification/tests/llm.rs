use saya_core::llm::{completion_text, parse_classification_response, plan_completion, LlmApi, LlmEndpoint, LlmReply};

fn endpoint(provider: &str, url: &str, key: Option<&str>) -> LlmEndpoint {
    LlmEndpoint {
        id: 1,
        name: "n".into(),
        provider: provider.into(),
        endpoint_url: url.into(),
        api_key: key.map(|k| k.to_string()),
        model: "model-x".into(),
        is_default: true,
    }
}

#[test]
fn classification_keywords() {
    let (c, x) = parse_classification_response("Cognitive_axis: REVIEW\ncontext: work", "cognitive_axis", None).unwrap();
    assert_eq!((c.as_str(), x.as_deref()), ("review", Some("Work")));
    let (c, x) = parse_classification_response("please call me, it is important", "c", Some("x")).unwrap();
    assert_eq!((c.as_str(), x.as_deref()), ("call", Some("Urgent")));
    let (c, x) = parse_classification_response("nothing to see", "c", None).unwrap();
    assert_eq!((c.as_str(), x.as_deref()), ("General", Some("General")));
    // "require" wins over every later keyword; "delete" is checked before "schedule".
    let (c, _) = parse_classification_response("schedule delete require", "c", None).unwrap();
    assert_eq!(c, "require");
    let (c, x) = parse_classification_response("schedule, delete; personal", "c", None).unwrap();
    assert_eq!((c.as_str(), x.as_deref()), ("delete", Some("Personal")));
}

#[test]
fn openai_request() {
    let r = plan_completion(&endpoint("openai", "", Some("k")), "sys", "usr").unwrap();
    assert_eq!(r.api, LlmApi::OpenAi);
    assert_eq!(r.url, "https://api.openai.com/v1/chat/completions");
    let headers: Vec<(String, String)> = r.headers.iter().map(|h| (h.name.clone(), h.value.clone())).collect();
    assert_eq!(
        headers,
        vec![
            ("Authorization".to_string(), "Bearer k".to_string()),
            ("Content-Type".to_string(), "application/json".to_string()),
        ]
    );
    let msgs: Vec<(String, String)> = r.messages.iter().map(|m| (m.role.clone(), m.content.clone())).collect();
    assert_eq!(msgs, vec![("system".to_string(), "sys".to_string()), ("user".to_string(), "usr".to_string())]);
    assert_eq!(r.model, "model-x");
    assert_eq!(r.max_tokens, None);
    assert_eq!(plan_completion(&endpoint("openai", "", None), "s", "u").unwrap_err(), "OpenAI requires an API key");
}

#[test]
fn anthropic_request() {
    let r = plan_completion(&endpoint("anthropic", "http://proxy", Some("k")), "sys", "usr").unwrap();
    assert_eq!(r.api, LlmApi::Anthropic);
    assert_eq!(r.url, "http://proxy");
    assert_eq!(r.headers.len(), 3);
    assert_eq!(r.headers[0].name, "x-api-key");
    assert_eq!(r.headers[1].value, "2023-06-01");
    assert_eq!(r.messages.len(), 1);
    assert_eq!(r.messages[0].content, "sys\n\nusr");
    assert_eq!(r.max_tokens, Some(1024));
    let r = plan_completion(&endpoint("anthropic", "", Some("k")), "s", "u").unwrap();
    assert_eq!(r.url, "https://api.anthropic.com/v1/messages");
    assert_eq!(
        plan_completion(&endpoint("anthropic", "", None), "s", "u").unwrap_err(),
        "Anthropic requires an API key"
    );
}

#[test]
fn other_providers() {
    let r = plan_completion(&endpoint("local", "http://localhost:1234/v1", None), "s", "u").unwrap();
    assert_eq!(r.api, LlmApi::Local);
    assert_eq!(r.url, "http://localhost:1234/v1");
    assert_eq!(r.headers.len(), 1);
    assert_eq!(
        plan_completion(&endpoint("local", "", None), "s", "u").unwrap_err(),
        "Local provider requires an endpoint_url"
    );
    assert_eq!(
        plan_completion(&endpoint("bedrock", "", Some("k")), "s", "u").unwrap_err(),
        "Bedrock provider not yet implemented"
    );
    assert_eq!(plan_completion(&endpoint("mystery", "", None), "s", "u").unwrap_err(), "Unknown provider: mystery");
}

#[test]
fn replies() {
    assert_eq!(completion_text(LlmApi::OpenAi, LlmReply::Parsed(Some("hi".into()))).unwrap(), "hi");
    assert_eq!(completion_text(LlmApi::OpenAi, LlmReply::Parsed(None)).unwrap_err(), "No response from OpenAI");
    assert_eq!(
        completion_text(LlmApi::Anthropic, LlmReply::HttpError { status: "401 Unauthorized".into(), body: "no".into() })
            .unwrap_err(),
        "Anthropic API error (401 Unauthorized): no"
    );
    assert_eq!(
        completion_text(LlmApi::Local, LlmReply::SendFailed("refused".into())).unwrap_err(),
        "Failed to call local LLM: refused"
    );
    assert_eq!(
        completion_text(LlmApi::Local, LlmReply::HttpError { status: "500".into(), body: "".into() }).unwrap_err(),
        "Local LLM error (500): "
    );
    assert_eq!(
        completion_text(LlmApi::OpenAi, LlmReply::Unparsable("bad".into())).unwrap_err(),
        "Failed to parse OpenAI response: bad"
    );
}
