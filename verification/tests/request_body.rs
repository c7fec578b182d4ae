use chat_completions::endpoint::chat_completions_path;
use chat_completions::json::{Json, JsonNumber};
use chat_completions::request::{convert_content_types, convert_request_body};

fn s(x: &str) -> Json {
    Json::Str(x.to_string())
}

fn num(n: u64) -> Json {
    Json::Number(JsonNumber::PosInt(n))
}

fn float(text: &str) -> Json {
    Json::Number(JsonNumber::Float(text.to_string()))
}

fn obj(entries: Vec<(&str, Json)>) -> Json {
    Json::Object(entries.into_iter().map(|(k, v)| (k.to_string(), v)).collect())
}

fn arr(items: Vec<Json>) -> Json {
    Json::Array(items)
}

/// `v[k]`, or null when there is no such member (as `serde_json` indexing does).
fn member(v: &Json, k: &str) -> Json {
    match v.get(k) {
        Some(x) => x.deep_clone(),
        None => Json::Null,
    }
}

/// `v[i]`, or null when there is no such item.
fn item(v: &Json, i: usize) -> Json {
    match v.as_array() {
        Some(a) if i < a.len() => a[i].deep_clone(),
        _ => Json::Null,
    }
}

fn messages(body: &Json) -> Vec<Json> {
    match body.get("messages") {
        Some(Json::Array(a)) => a.iter().map(|m| m.deep_clone()).collect(),
        other => panic!("messages is not an array: {:?}", other),
    }
}

fn string_of(v: &Json) -> String {
    match v {
        Json::Str(s) => s.clone(),
        other => panic!("not a string: {:?}", other),
    }
}

#[test]
fn path_returns_chat_completions() {
    assert_eq!(chat_completions_path(), "chat/completions");
}

#[test]
fn converts_request_body_basic() {
    let mut body = obj(vec![
        ("model", s("doubao-seed-2.0-pro")),
        ("input", arr(vec![obj(vec![("role", s("user")), ("content", s("Hello"))])])),
        ("max_output_tokens", num(100)),
        ("stream", Json::Bool(true)),
        ("store", Json::Bool(true)),
        ("include", arr(vec![s("reasoning.encrypted_content")])),
    ]);

    convert_request_body(&mut body);

    assert_eq!(
        member(&body, "messages"),
        arr(vec![obj(vec![("role", s("user")), ("content", s("Hello"))])])
    );
    assert_eq!(member(&body, "max_tokens"), num(100));
    assert!(body.get("input").is_none());
    assert!(body.get("max_output_tokens").is_none());
    assert!(body.get("store").is_none());
    assert!(body.get("include").is_none());
}

#[test]
fn converts_request_with_instructions() {
    let mut body = obj(vec![
        ("model", s("test")),
        ("instructions", s("You are helpful.")),
        ("input", arr(vec![obj(vec![("role", s("user")), ("content", s("Hi"))])])),
    ]);

    convert_request_body(&mut body);

    let messages = messages(&body);
    assert_eq!(messages[0], obj(vec![("role", s("system")), ("content", s("You are helpful."))]));
    assert_eq!(messages[1], obj(vec![("role", s("user")), ("content", s("Hi"))]));
}

#[test]
fn converts_request_with_tools() {
    let mut body = obj(vec![
        ("model", s("test")),
        ("input", arr(vec![obj(vec![("role", s("user")), ("content", s("What's the weather?"))])])),
        (
            "tools",
            arr(vec![obj(vec![
                ("type", s("function")),
                ("name", s("get_weather")),
                ("description", s("Get weather")),
                ("parameters", obj(vec![("type", s("object"))])),
                ("strict", Json::Bool(false)),
            ])]),
        ),
        ("tool_choice", s("auto")),
        ("temperature", float("0.7")),
    ]);

    convert_request_body(&mut body);

    let tools = member(&body, "tools");
    assert_eq!(tools.as_array().unwrap().len(), 1);
    let tool = item(&tools, 0);
    assert_eq!(member(&tool, "type"), s("function"));
    // Should be nested in "function" object for Chat Completions API
    assert_eq!(member(&member(&tool, "function"), "name"), s("get_weather"));
    assert_eq!(member(&member(&tool, "function"), "description"), s("Get weather"));
    assert_eq!(member(&member(&member(&tool, "function"), "parameters"), "type"), s("object"));
    // Top-level name/description/parameters should be gone
    assert!(tool.get("name").is_none());
    assert!(tool.get("description").is_none());
    assert_eq!(member(&body, "tool_choice"), s("auto"));
    assert_eq!(member(&body, "temperature"), float("0.7"));
}

#[test]
fn converts_request_with_text_format() {
    let mut body = obj(vec![
        ("model", s("test")),
        ("input", arr(vec![obj(vec![("role", s("user")), ("content", s("Hi"))])])),
        ("text", obj(vec![("format", obj(vec![("type", s("json_object"))]))])),
    ]);

    convert_request_body(&mut body);

    assert_eq!(member(&body, "response_format"), obj(vec![("type", s("json_object"))]));
    assert!(body.get("text").is_none());
}

#[test]
fn converts_content_item_types() {
    let mut body = obj(vec![
        ("model", s("test")),
        (
            "input",
            arr(vec![
                obj(vec![
                    ("role", s("user")),
                    (
                        "content",
                        arr(vec![
                            obj(vec![("type", s("input_text")), ("text", s("Hello"))]),
                            obj(vec![
                                ("type", s("input_image")),
                                ("image_url", s("http://example.com/img.png")),
                            ]),
                        ]),
                    ),
                ]),
                obj(vec![
                    ("role", s("assistant")),
                    ("content", arr(vec![obj(vec![("type", s("output_text")), ("text", s("Hi there"))])])),
                ]),
            ]),
        ),
    ]);

    convert_request_body(&mut body);

    let messages = messages(&body);
    let user_content = member(&messages[0], "content");
    assert_eq!(member(&item(&user_content, 0), "type"), s("text"));
    assert_eq!(member(&item(&user_content, 1), "type"), s("image_url"));
    // Assistant content should be flattened to a plain string
    assert_eq!(member(&messages[1], "content"), s("Hi there"));
}

#[test]
fn converts_developer_role_to_system() {
    let mut body = obj(vec![
        ("model", s("test")),
        (
            "input",
            arr(vec![
                obj(vec![("role", s("developer")), ("content", s("You are helpful."))]),
                obj(vec![("role", s("user")), ("content", s("Hi"))]),
            ]),
        ),
    ]);

    convert_request_body(&mut body);

    let messages = messages(&body);
    assert_eq!(member(&messages[0], "role"), s("system"));
    assert_eq!(member(&messages[0], "content"), s("You are helpful."));
    assert_eq!(member(&messages[1], "role"), s("user"));
}

#[test]
fn handles_empty_instructions() {
    let mut body = obj(vec![
        ("model", s("test")),
        ("instructions", s("")),
        ("input", arr(vec![obj(vec![("role", s("user")), ("content", s("Hi"))])])),
    ]);

    convert_request_body(&mut body);

    let messages = messages(&body);
    assert_eq!(messages.len(), 1);
    assert_eq!(messages[0], obj(vec![("role", s("user")), ("content", s("Hi"))]));
}

#[test]
fn handles_missing_input() {
    let mut body = obj(vec![("model", s("test")), ("max_output_tokens", num(50))]);

    convert_request_body(&mut body);

    assert!(body.get("messages").is_none());
    assert_eq!(member(&body, "max_tokens"), num(50));
}

#[test]
fn flattens_assistant_content_to_string() {
    let mut body = obj(vec![
        ("model", s("test")),
        (
            "input",
            arr(vec![
                obj(vec![("role", s("user")), ("content", s("Hello"))]),
                obj(vec![
                    ("role", s("assistant")),
                    (
                        "content",
                        arr(vec![
                            obj(vec![("type", s("output_text")), ("text", s("Part 1. "))]),
                            obj(vec![("type", s("output_text")), ("text", s("Part 2."))]),
                        ]),
                    ),
                ]),
                obj(vec![("role", s("user")), ("content", s("Follow up"))]),
            ]),
        ),
    ]);

    convert_request_body(&mut body);

    let messages = messages(&body);
    // User messages stay as-is
    assert_eq!(member(&messages[0], "content"), s("Hello"));
    // Assistant content flattened to single string
    assert_eq!(member(&messages[1], "content"), s("Part 1. Part 2."));
    assert_eq!(member(&messages[2], "content"), s("Follow up"));
}

#[test]
fn converts_tool_role_to_user() {
    let mut body = obj(vec![
        ("model", s("test")),
        (
            "input",
            arr(vec![
                obj(vec![("role", s("user")), ("content", s("list files"))]),
                obj(vec![
                    ("role", s("assistant")),
                    ("content", arr(vec![obj(vec![("type", s("output_text")), ("text", s("I'll list the files."))])])),
                    (
                        "tool_calls",
                        arr(vec![obj(vec![
                            ("id", s("call_123")),
                            ("type", s("function")),
                            ("function", obj(vec![("name", s("exec")), ("arguments", s("{\"cmd\":\"ls\"}"))])),
                        ])]),
                    ),
                ]),
                obj(vec![
                    ("role", s("tool")),
                    ("tool_call_id", s("call_123")),
                    ("content", s("file1.txt\nfile2.txt")),
                ]),
            ]),
        ),
    ]);

    convert_request_body(&mut body);

    let messages = messages(&body);
    assert_eq!(member(&messages[0], "role"), s("user"));
    assert_eq!(member(&messages[1], "role"), s("assistant"));
    // Tool role converted to user for Xiaomi Mimo compatibility
    assert_eq!(member(&messages[2], "role"), s("user"));
    assert!(string_of(&member(&messages[2], "content")).contains("call_123"));
    assert!(string_of(&member(&messages[2], "content")).contains("file1.txt"));
}

#[test]
fn converts_function_call_output_to_tool_role() {
    let mut body = obj(vec![
        ("model", s("test")),
        (
            "input",
            arr(vec![
                obj(vec![("role", s("user")), ("content", s("list files"))]),
                obj(vec![
                    ("type", s("function_call")),
                    ("id", s("fc_1")),
                    ("call_id", s("call_123")),
                    ("name", s("exec")),
                    ("arguments", s("{\"cmd\":\"ls\"}")),
                ]),
                obj(vec![
                    ("type", s("function_call_output")),
                    ("call_id", s("call_123")),
                    ("output", s("file1.txt\nfile2.txt")),
                ]),
            ]),
        ),
    ]);

    convert_request_body(&mut body);

    let messages = messages(&body);
    assert_eq!(messages.len(), 3);
    assert_eq!(member(&messages[0], "role"), s("user"));
    // function_call → assistant with tool_calls
    assert_eq!(member(&messages[1], "role"), s("assistant"));
    assert!(member(&messages[1], "tool_calls").as_array().is_some());
    assert_eq!(member(&item(&member(&messages[1], "tool_calls"), 0), "id"), s("call_123"));
    // function_call_output → tool with tool_call_id
    assert_eq!(member(&messages[2], "role"), s("tool"));
    assert_eq!(member(&messages[2], "tool_call_id"), s("call_123"));
    assert_eq!(member(&messages[2], "content"), s("file1.txt\nfile2.txt"));
}

#[test]
fn merges_consecutive_assistant_tool_calls() {
    // Responses API may emit one assistant message per tool call.
    // Chat Completions requires all tool_calls in a single assistant message.
    let mut body = obj(vec![
        ("model", s("test")),
        (
            "input",
            arr(vec![
                obj(vec![("role", s("user")), ("content", s("do two things"))]),
                obj(vec![
                    ("type", s("function_call")),
                    ("id", s("fc_1")),
                    ("call_id", s("call_A")),
                    ("name", s("exec")),
                    ("arguments", s("{\"cmd\":\"ls\"}")),
                ]),
                obj(vec![
                    ("type", s("function_call")),
                    ("id", s("fc_2")),
                    ("call_id", s("call_B")),
                    ("name", s("exec")),
                    ("arguments", s("{\"cmd\":\"pwd\"}")),
                ]),
                obj(vec![("type", s("function_call_output")), ("call_id", s("call_A")), ("output", s("file1.txt"))]),
                obj(vec![("type", s("function_call_output")), ("call_id", s("call_B")), ("output", s("/tmp"))]),
            ]),
        ),
    ]);

    convert_request_body(&mut body);

    let messages = messages(&body);
    assert_eq!(messages.len(), 4); // user, assistant(merged), tool(A), tool(B)
    assert_eq!(member(&messages[0], "role"), s("user"));
    // Two function_calls merged into one assistant message
    assert_eq!(member(&messages[1], "role"), s("assistant"));
    let tool_calls = member(&messages[1], "tool_calls");
    assert_eq!(tool_calls.as_array().unwrap().len(), 2);
    assert_eq!(member(&item(&tool_calls, 0), "id"), s("call_A"));
    assert_eq!(member(&item(&tool_calls, 1), "id"), s("call_B"));
    // Tool responses
    assert_eq!(member(&messages[2], "role"), s("tool"));
    assert_eq!(member(&messages[2], "tool_call_id"), s("call_A"));
    assert_eq!(member(&messages[3], "role"), s("tool"));
    assert_eq!(member(&messages[3], "tool_call_id"), s("call_B"));
}

#[test]
fn attaches_reasoning_content_to_next_assistant_message() {
    let mut body = obj(vec![
        ("model", s("test")),
        (
            "input",
            arr(vec![
                obj(vec![("role", s("user")), ("content", s("Think about this"))]),
                obj(vec![
                    ("type", s("reasoning")),
                    ("id", s("rs-1")),
                    ("summary", arr(vec![])),
                    ("content", arr(vec![obj(vec![("type", s("reasoning_text")), ("text", s("Let me think..."))])])),
                ]),
                obj(vec![
                    ("role", s("assistant")),
                    ("content", arr(vec![obj(vec![("type", s("output_text")), ("text", s("Here is my answer."))])])),
                ]),
                obj(vec![("role", s("user")), ("content", s("Follow up"))]),
            ]),
        ),
    ]);

    convert_request_body(&mut body);

    let messages = messages(&body);
    assert_eq!(messages.len(), 3);
    assert_eq!(member(&messages[0], "role"), s("user"));
    assert_eq!(member(&messages[1], "role"), s("assistant"));
    assert_eq!(member(&messages[1], "content"), s("Here is my answer."));
    assert_eq!(member(&messages[1], "reasoning_content"), s("Let me think..."));
    assert_eq!(member(&messages[2], "role"), s("user"));
}

#[test]
fn reasoning_content_without_following_assistant_is_ignored() {
    let mut body = obj(vec![
        ("model", s("test")),
        (
            "input",
            arr(vec![
                obj(vec![
                    ("type", s("reasoning")),
                    ("id", s("rs-1")),
                    ("summary", arr(vec![])),
                    ("content", arr(vec![obj(vec![("type", s("reasoning_text")), ("text", s("Orphan reasoning"))])])),
                ]),
                obj(vec![("role", s("user")), ("content", s("Hello"))]),
            ]),
        ),
    ]);

    convert_request_body(&mut body);

    let messages = messages(&body);
    // Reasoning item removed, only user message remains
    assert_eq!(messages.len(), 1);
    assert_eq!(member(&messages[0], "role"), s("user"));
}

// ----- further cases -----

#[test]
fn non_object_body_is_left_alone() {
    let mut body = arr(vec![s("x")]);
    convert_request_body(&mut body);
    assert_eq!(body, arr(vec![s("x")]));
}

#[test]
fn converted_body_has_exact_shape() {
    let mut body = obj(vec![
        ("model", s("m")),
        ("instructions", s("Be brief.")),
        ("input", s("just text")),
        ("max_output_tokens", num(7)),
        ("reasoning", obj(vec![("effort", s("high"))])),
        ("parallel_tool_calls", Json::Bool(true)),
        ("prompt_cache_key", s("k")),
        ("service_tier", s("auto")),
        ("client_metadata", obj(vec![])),
        ("tools", arr(vec![obj(vec![("type", s("web_search"))])])),
    ]);

    convert_request_body(&mut body);

    assert_eq!(
        body,
        obj(vec![
            (
                "messages",
                arr(vec![
                    obj(vec![("role", s("system")), ("content", s("Be brief."))]),
                    s("just text"),
                ])
            ),
            ("max_tokens", num(7)),
            ("thinking", obj(vec![("type", s("disabled"))])),
            ("tools", arr(vec![])),
            ("model", s("m")),
        ])
    );
}

#[test]
fn instructions_stay_without_input() {
    let mut body = obj(vec![("instructions", s("keep")), ("model", s("m"))]);
    convert_request_body(&mut body);
    assert_eq!(
        body,
        obj(vec![
            ("thinking", obj(vec![("type", s("disabled"))])),
            ("instructions", s("keep")),
            ("model", s("m")),
        ])
    );
}

#[test]
fn tool_extra_members_follow_the_function() {
    let mut body = obj(vec![(
        "tools",
        arr(vec![obj(vec![("type", s("function")), ("name", s("f")), ("cache", Json::Bool(true))])]),
    )]);
    convert_request_body(&mut body);
    assert_eq!(
        member(&body, "tools"),
        arr(vec![obj(vec![
            ("type", s("function")),
            (
                "function",
                obj(vec![
                    ("name", s("f")),
                    ("description", Json::Null),
                    ("parameters", Json::Null),
                    ("strict", Json::Null),
                ])
            ),
            ("cache", Json::Bool(true)),
        ])])
    );
}

#[test]
fn tool_role_array_content_is_joined_with_prefix() {
    let mut body = obj(vec![(
        "input",
        arr(vec![obj(vec![
            ("role", s("tool")),
            ("tool_call_id", s("c9")),
            ("content", arr(vec![obj(vec![("text", s("a"))]), obj(vec![("text", s("b"))])])),
        ])]),
    )]);
    convert_request_body(&mut body);
    assert_eq!(member(&messages(&body)[0], "content"), s("[Tool result for c9]\nab"));
    assert_eq!(member(&messages(&body)[0], "role"), s("user"));
}

#[test]
fn function_call_output_array_is_joined() {
    let mut body = obj(vec![(
        "input",
        arr(vec![obj(vec![
            ("type", s("function_call_output")),
            ("call_id", s("c1")),
            ("output", arr(vec![obj(vec![("type", s("output_text")), ("text", s("x"))]), obj(vec![("text", s("y"))])])),
        ])]),
    )]);
    convert_request_body(&mut body);
    assert_eq!(
        messages(&body)[0],
        obj(vec![("role", s("tool")), ("tool_call_id", s("c1")), ("content", s("xy"))])
    );
}

#[test]
fn merge_takes_content_of_later_message_when_first_is_null() {
    let mut body = obj(vec![(
        "input",
        arr(vec![
            obj(vec![("role", s("assistant")), ("content", Json::Null), ("tool_calls", arr(vec![s("A")]))]),
            obj(vec![("role", s("assistant")), ("content", s("later")), ("tool_calls", arr(vec![s("B")]))]),
        ]),
    )]);
    convert_request_body(&mut body);
    assert_eq!(
        messages(&body),
        vec![obj(vec![
            ("role", s("assistant")),
            ("content", s("later")),
            ("tool_calls", arr(vec![s("A"), s("B")])),
        ])]
    );
}

#[test]
fn reasoning_texts_accumulate_until_an_assistant() {
    let reasoning = |t: &str| {
        obj(vec![("type", s("reasoning")), ("content", arr(vec![obj(vec![("text", s(t))])]))])
    };
    let mut body = obj(vec![(
        "input",
        arr(vec![
            reasoning("one "),
            reasoning("two"),
            obj(vec![("role", s("assistant")), ("content", s("done"))]),
            obj(vec![("role", s("assistant")), ("content", s("again"))]),
        ]),
    )]);
    convert_request_body(&mut body);
    let messages = messages(&body);
    assert_eq!(messages.len(), 2);
    assert_eq!(member(&messages[0], "reasoning_content"), s("one two"));
    assert!(messages[1].get("reasoning_content").is_none());
}

#[test]
fn content_types_are_renamed_in_place() {
    let mut content = arr(vec![
        obj(vec![("type", s("output_text")), ("text", s("t"))]),
        obj(vec![("type", s("input_file"))]),
        s("plain"),
    ]);
    convert_content_types(&mut content);
    assert_eq!(
        content,
        arr(vec![
            obj(vec![("type", s("text")), ("text", s("t"))]),
            obj(vec![("type", s("input_file"))]),
            s("plain"),
        ])
    );
    let mut other = s("not an array");
    convert_content_types(&mut other);
    assert_eq!(other, s("not an array"));
}

#[test]
fn request_members_of_the_new_names_win() {
    let mut body = obj(vec![
        ("max_output_tokens", num(10)),
        ("max_tokens", num(20)),
        ("text", obj(vec![("format", s("json"))])),
        ("response_format", s("own")),
        ("thinking", obj(vec![("type", s("enabled"))])),
    ]);
    convert_request_body(&mut body);
    assert_eq!(member(&body, "max_tokens"), num(20));
    assert_eq!(member(&body, "response_format"), s("own"));
    assert_eq!(member(&body, "thinking"), obj(vec![("type", s("enabled"))]));
    assert_eq!(member(&body, "max_output_tokens"), Json::Null);
    assert_eq!(member(&body, "text"), Json::Null);
}

#[test]
fn only_function_tools_are_sent() {
    let mut body = obj(vec![(
        "tools",
        arr(vec![
            obj(vec![("type", s("local_shell"))]),
            obj(vec![("type", s("function")), ("name", s("a"))]),
            s("not a tool"),
            obj(vec![("type", s("web_search")), ("name", s("w"))]),
            obj(vec![("type", s("function")), ("name", s("b")), ("strict", Json::Bool(false))]),
        ]),
    )]);
    convert_request_body(&mut body);
    let tools = member(&body, "tools");
    let sent = tools.as_array().unwrap();
    assert_eq!(sent.len(), 2);
    for (t, name) in sent.iter().zip(["a", "b"]) {
        assert_eq!(member(t, "type"), s("function"));
        assert_eq!(member(&member(t, "function"), "name"), s(name));
    }
    assert_eq!(member(&member(&item(&tools, 1), "function"), "strict"), Json::Bool(false));
}

#[test]
fn tools_that_are_not_a_list_pass_unchanged() {
    let mut body = obj(vec![("tools", s("auto"))]);
    convert_request_body(&mut body);
    assert_eq!(member(&body, "tools"), s("auto"));
}

#[test]
fn no_developer_message_is_sent() {
    let mut body = obj(vec![(
        "input",
        arr(vec![
            obj(vec![("role", s("developer")), ("content", s("rules"))]),
            obj(vec![("role", s("user")), ("content", s("hi"))]),
            obj(vec![("role", s("developer")), ("content", arr(vec![]))]),
        ]),
    )]);
    convert_request_body(&mut body);
    let roles: Vec<Json> = messages(&body).iter().map(|m| member(m, "role")).collect();
    assert_eq!(roles, vec![s("system"), s("user"), s("system")]);
}
