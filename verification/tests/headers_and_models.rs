use chat_completions::headers::{accept_event_stream, default_user_agent, server_model};
use chat_completions::json::{parse_json, Json, JsonNumber};
use chat_completions::models::{
    bearer_token, endpoint_models_request, is_success, listed_entries, listed_model_ids, listed_models,
    model_ids_from_body, models_request, models_url, newest_first, parse_model_ids, picker_models,
    picker_models_request, ModelEntry, ModelVisibility, ModelsError, ModelsReply,
};

fn picked(slug: &str, priority: i32) -> ModelEntry {
    ModelEntry {
        slug: slug.to_string(),
        display_name: slug.to_string(),
        visibility: ModelVisibility::List,
        priority: Some(priority),
    }
}

fn s(x: &str) -> Json {
    Json::Str(x.to_string())
}

fn obj(entries: Vec<(&str, Json)>) -> Json {
    Json::Object(entries.into_iter().map(|(k, v)| (k.to_string(), v)).collect())
}

fn models_body(ids: &[&str]) -> String {
    let entries: Vec<String> =
        ids.iter().map(|id| String::from(r#"{"id":""#) + id + r#"","object":"model"}"#).collect();
    String::from(r#"{"object":"list","data":["#) + &entries.join(",") + "]}"
}

#[test]
fn accept_header_is_replaced_by_event_stream() {
    let mut headers = http::HeaderMap::new();
    headers.insert(http::header::ACCEPT, http::HeaderValue::from_static("application/json"));
    headers.append(http::header::ACCEPT, http::HeaderValue::from_static("text/plain"));
    headers.insert("x-extra", http::HeaderValue::from_static("1"));
    assert!(accept_event_stream(&mut headers));
    let accepts: Vec<_> = headers.get_all(http::header::ACCEPT).iter().collect();
    assert_eq!(accepts, vec![&http::HeaderValue::from_static("text/event-stream")]);
    assert_eq!(headers.get("x-extra").unwrap(), "1");
}

#[test]
fn user_agent_defaults_only_when_missing() {
    let mut headers = http::HeaderMap::new();
    assert!(default_user_agent(&mut headers, "coding-agent/0.1"));
    assert_eq!(headers.get(http::header::USER_AGENT).unwrap(), "coding-agent/0.1");
    assert_eq!(headers.len(), 1);

    let mut headers = http::HeaderMap::new();
    headers.insert(http::header::USER_AGENT, http::HeaderValue::from_static("mine/2"));
    assert!(default_user_agent(&mut headers, "coding-agent/0.1"));
    assert_eq!(headers.get(http::header::USER_AGENT).unwrap(), "mine/2");
    assert_eq!(headers.len(), 1);
}

#[test]
fn full_header_maps_are_left_alone() {
    let mut headers = http::HeaderMap::new();
    for i in 0..6554 {
        let name = http::HeaderName::from_bytes(format!("x-h{i}").as_bytes()).unwrap();
        headers.insert(name, http::HeaderValue::from_static("v"));
    }
    assert!(!accept_event_stream(&mut headers));
    assert!(!headers.contains_key(http::header::ACCEPT));
    assert!(!default_user_agent(&mut headers, "coding-agent/0.1"));
    assert!(!headers.contains_key(http::header::USER_AGENT));
    assert_eq!(headers.keys_len(), 6554);

    headers.insert(http::header::USER_AGENT, http::HeaderValue::from_static("mine/3"));
    assert!(default_user_agent(&mut headers, "coding-agent/0.1"));
    assert_eq!(headers.get(http::header::USER_AGENT).unwrap(), "mine/3");

    let mut headers = http::HeaderMap::new();
    for i in 0..6553 {
        let name = http::HeaderName::from_bytes(format!("x-h{i}").as_bytes()).unwrap();
        headers.insert(name, http::HeaderValue::from_static("v"));
    }
    assert!(accept_event_stream(&mut headers));
    assert_eq!(headers.get(http::header::ACCEPT).unwrap(), "text/event-stream");
}

#[test]
fn server_model_comes_from_the_openai_model_header() {
    let mut headers = http::HeaderMap::new();
    assert_eq!(server_model(&headers), None);
    headers.insert("openai-model", http::HeaderValue::from_static("doubao-seed"));
    assert_eq!(server_model(&headers), Some("doubao-seed".to_string()));
    headers.insert("openai-model", http::HeaderValue::from_bytes(&[0x6d, 0xff]).unwrap());
    assert_eq!(server_model(&headers), None);
}

#[test]
fn models_url_and_request() {
    assert_eq!(models_url("https://api.example.com/v1"), "https://api.example.com/v1/models");
    let req = models_request::<()>(Some("http://h/v1"), Ok(None), Some("tok".to_string()), 7).unwrap();
    assert_eq!(req.url, "http://h/v1/models");
    assert_eq!(req.bearer, Some("tok".to_string()));
    assert_eq!(req.user_agent, "codex-cli/0.1");
    assert_eq!(req.timeout_secs, 7);
    assert!(models_request::<()>(None, Ok(Some("k".to_string())), None, 7).is_none());
    let req = picker_models_request::<()>(Some("https://x/v1"), Ok(Some("k".to_string())), None).unwrap();
    assert_eq!((req.url.as_str(), req.timeout_secs), ("https://x/v1/models", 5));
    assert_eq!(req.bearer, Some("k".to_string()));
    let req = endpoint_models_request::<()>(Some("https://x/v1"), Ok(None), None).unwrap();
    assert_eq!((req.url.as_str(), req.timeout_secs, req.bearer), ("https://x/v1/models", 10, None));
    assert!(endpoint_models_request::<()>(None, Ok(None), None).is_none());
}

#[test]
fn api_key_takes_precedence_over_bearer_token() {
    assert_eq!(bearer_token::<()>(Ok(Some("key".to_string())), Some("tok".to_string())), Some("key".to_string()));
    assert_eq!(bearer_token::<()>(Ok(None), Some("tok".to_string())), Some("tok".to_string()));
    assert_eq!(bearer_token(Err("no env"), Some("tok".to_string())), Some("tok".to_string()));
    assert_eq!(bearer_token::<()>(Ok(None), None), None);
}

#[test]
fn success_statuses() {
    assert!(!is_success(199));
    assert!(is_success(200));
    assert!(is_success(299));
    assert!(!is_success(300));
    assert!(!is_success(404));
}

#[test]
fn listed_ids_keep_the_provider_order() {
    let reply = ModelsReply::Answered { status: 200, body: Some(models_body(&["a", "b", "c"])) };
    assert_eq!(listed_model_ids(&reply), Ok(vec!["a".to_string(), "b".to_string(), "c".to_string()]));
}

#[test]
fn listed_ids_skip_entries_without_a_string_id() {
    let body = r#"{"data":[{"id":"x"},{"name":"y"},"z",{"id":null},{"id":7}]}"#.to_string();
    let reply = ModelsReply::Answered { status: 200, body: Some(body) };
    assert_eq!(listed_model_ids(&reply), Ok(vec!["x".to_string()]));
}

#[test]
fn listed_ids_on_failures() {
    assert_eq!(listed_model_ids(&ModelsReply::SendFailed), Ok(vec![]));
    let reply = ModelsReply::Answered { status: 401, body: Some(models_body(&["a"])) };
    assert_eq!(listed_model_ids(&reply), Ok(vec![]));
    let reply = ModelsReply::Answered { status: 200, body: None };
    assert_eq!(listed_model_ids(&reply), Err(ModelsError::UnreadableBody));
    let reply = ModelsReply::Answered { status: 200, body: Some("<html>".to_string()) };
    assert_eq!(listed_model_ids(&reply), Ok(vec![]));
    let reply = ModelsReply::Answered { status: 200, body: Some(r#"{"data":"none"}"#.to_string()) };
    assert_eq!(listed_model_ids(&reply), Ok(vec![]));
}

#[test]
fn picker_lists_newest_first_with_priorities() {
    let reply = ModelsReply::Answered { status: 200, body: Some(models_body(&["old", "mid", "new"])) };
    assert_eq!(
        picker_models(&reply),
        vec![
            picked("new", 0),
            picked("mid", 1),
            picked("old", 2),
        ]
    );
    assert_eq!(picker_models(&ModelsReply::SendFailed), vec![]);
    assert_eq!(picker_models(&ModelsReply::Answered { status: 200, body: None }), vec![]);
    assert_eq!(
        picker_models(&ModelsReply::Answered { status: 500, body: Some(models_body(&["a"])) }),
        vec![]
    );
}

#[test]
fn parse_model_ids_reads_the_data_array() {
    assert_eq!(
        parse_model_ids(r#"{"object":"list","data":[{"id":"deepseek-chat"},{"id":"deepseek-reasoner"}]}"#),
        vec!["deepseek-chat".to_string(), "deepseek-reasoner".to_string()]
    );
    assert_eq!(parse_model_ids("not json"), Vec::<String>::new());
    assert_eq!(parse_model_ids(r#"{"models":[{"id":"a"}]}"#), Vec::<String>::new());
    assert_eq!(parse_model_ids(""), Vec::<String>::new());
}

#[test]
fn parse_json_builds_the_document() {
    assert_eq!(parse_json("nope"), None);
    assert_eq!(
        parse_json(r#" {"a":[1,-2,true,null,"x"]} "#),
        Some(obj(vec![(
            "a",
            Json::Array(vec![
                Json::Number(JsonNumber::PosInt(1)),
                Json::Number(JsonNumber::NegInt(-2)),
                Json::Bool(true),
                Json::Null,
                s("x"),
            ]),
        )]))
    );
    assert_eq!(parse_json("0.5"), Some(Json::Number(JsonNumber::Float("0.5".to_string()))));
}

#[test]
fn ids_from_a_parsed_body() {
    let body = obj(vec![("data", Json::Array(vec![obj(vec![("id", s("m1"))])]))]);
    assert_eq!(model_ids_from_body(Some(&body)), vec!["m1".to_string()]);
    assert_eq!(model_ids_from_body(None), Vec::<String>::new());
}

#[test]
fn newest_first_reverses_and_numbers() {
    assert_eq!(
        newest_first(vec!["a".to_string(), "b".to_string()]),
        vec![picked("b", 0), picked("a", 1)]
    );
    assert_eq!(newest_first(vec![]), vec![]);
}

#[test]
fn picker_entries_are_shown_under_their_ids() {
    let body = r#"{"data":[{"id":"m-old"},{"id":7},{"id":"m-new"}]}"#.to_string();
    let reply = ModelsReply::Answered { status: 200, body: Some(body) };
    assert_eq!(picker_models(&reply), vec![picked("m-new", 0), picked("m-old", 1)]);
}

#[test]
fn endpoint_entries_keep_the_provider_order() {
    let reply = ModelsReply::Answered { status: 200, body: Some(models_body(&["a", "b"])) };
    let unranked = |slug: &str| ModelEntry {
        slug: slug.to_string(),
        display_name: slug.to_string(),
        visibility: ModelVisibility::List,
        priority: None,
    };
    assert_eq!(listed_models(&reply), Ok(vec![unranked("a"), unranked("b")]));
    assert_eq!(listed_models(&ModelsReply::Answered { status: 200, body: None }), Err(ModelsError::UnreadableBody));
    assert_eq!(listed_models(&ModelsReply::SendFailed), Ok(vec![]));
    assert_eq!(listed_entries(vec!["z".to_string()]), vec![unranked("z")]);
}
