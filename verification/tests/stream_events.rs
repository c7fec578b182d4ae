use chat_completions::json::{Json, JsonNumber};
use chat_completions::stream::{
    ChatStreamState, ContentItem, ResponseEvent, ResponseItem, StreamInput, StreamItem, TokenUsage,
};

fn chunk(data: &str) -> StreamInput {
    StreamInput::Data { data: data.to_string() }
}

fn event(e: ResponseEvent) -> StreamItem {
    StreamItem::Event(e)
}

fn placeholder() -> StreamItem {
    event(ResponseEvent::OutputItemAdded(ResponseItem::Message {
        role: "assistant".to_string(),
        content: vec![],
    }))
}

fn call(name: &str, arguments: &str, call_id: &str) -> ResponseItem {
    ResponseItem::FunctionCall {
        name: name.to_string(),
        arguments: arguments.to_string(),
        call_id: call_id.to_string(),
    }
}

#[test]
fn text_stream_is_announced_streamed_and_completed() {
    let (mut st, opening) = ChatStreamState::open(Some("doubao".to_string()));
    assert_eq!(opening, vec![event(ResponseEvent::ServerModel("doubao".to_string()))]);

    let out = st.step(chunk(r#"{"id":"resp-1","choices":[{"delta":{"content":"Hel"}}]}"#));
    assert_eq!(out, vec![placeholder(), event(ResponseEvent::OutputTextDelta("Hel".to_string()))]);

    let out = st.step(chunk(r#" {"choices":[{"delta":{"content":"lo"}}]} "#));
    assert_eq!(out, vec![event(ResponseEvent::OutputTextDelta("lo".to_string()))]);
    assert!(!st.is_done());

    let out = st.step(chunk(
        r#"{"choices":[{"delta":{},"finish_reason":"stop"}],"usage":{"prompt_tokens":11,"completion_tokens":7,"completion_tokens_details":{"reasoning_tokens":3},"total_tokens":18}}"#,
    ));
    assert_eq!(
        out,
        vec![
            event(ResponseEvent::OutputItemDone(ResponseItem::Message {
                role: "assistant".to_string(),
                content: vec![ContentItem::OutputText { text: "Hello".to_string() }],
            })),
            event(ResponseEvent::Completed {
                response_id: "resp-1".to_string(),
                token_usage: Some(TokenUsage {
                    input_tokens: 11,
                    cached_input_tokens: 0,
                    output_tokens: 7,
                    reasoning_output_tokens: 3,
                    total_tokens: 18,
                }),
                end_turn: None,
            }),
        ]
    );
    assert!(st.is_done());
}

#[test]
fn done_marker_completes_with_last_response_id() {
    let (mut st, opening) = ChatStreamState::open(None);
    assert!(opening.is_empty());
    let out = st.step(chunk(r#"{"id":"r9","choices":[]}"#));
    assert!(out.is_empty());
    let out = st.step(chunk("  [DONE]\n"));
    assert_eq!(
        out,
        vec![event(ResponseEvent::Completed { response_id: "r9".to_string(), token_usage: None, end_turn: None })]
    );
    assert!(st.is_done());
}

#[test]
fn unparsable_data_is_skipped() {
    let (mut st, _) = ChatStreamState::open(None);
    let out = st.step(chunk("not json"));
    assert!(out.is_empty());
    assert!(!st.is_done());
}

#[test]
fn stream_failures_end_with_an_error() {
    let (mut st, _) = ChatStreamState::open(None);
    assert_eq!(
        st.step(StreamInput::Failure("broken pipe".to_string())),
        vec![StreamItem::Error("SSE error: broken pipe".to_string())]
    );
    assert!(st.is_done());

    let (mut st, _) = ChatStreamState::open(None);
    assert_eq!(
        st.step(StreamInput::Closed),
        vec![StreamItem::Error("stream closed before response.completed".to_string())]
    );
    assert!(st.is_done());

    let (mut st, _) = ChatStreamState::open(None);
    assert_eq!(
        st.step(StreamInput::IdleTimeout),
        vec![StreamItem::Error("idle timeout waiting for SSE".to_string())]
    );
    assert!(st.is_done());
}

#[test]
fn reasoning_delta_announces_the_message_once() {
    let (mut st, _) = ChatStreamState::open(None);
    let out = st.step(chunk(r#"{"choices":[{"delta":{"reasoning_content":"hmm","content":""}}]}"#));
    assert_eq!(
        out,
        vec![
            placeholder(),
            event(ResponseEvent::ReasoningContentDelta { delta: "hmm".to_string(), content_index: 0 }),
        ]
    );
    let out = st.step(chunk(r#"{"choices":[{"delta":{"content":"A"}}]}"#));
    assert_eq!(out, vec![event(ResponseEvent::OutputTextDelta("A".to_string()))]);
}

#[test]
fn streamed_tool_calls_are_done_in_index_order() {
    let (mut st, _) = ChatStreamState::open(None);
    let out = st.step(chunk(
        r#"{"choices":[{"delta":{"tool_calls":[{"index":1,"id":"call_B","function":{"name":"pwd","arguments":""}}]}}]}"#,
    ));
    assert_eq!(out, vec![event(ResponseEvent::OutputItemAdded(call("pwd", "", "call_B")))]);

    let out = st.step(chunk(
        r#"{"choices":[{"delta":{"tool_calls":[{"index":0,"id":"call_A","function":{"name":"ls","arguments":"{\"a\":"}}]}}]}"#,
    ));
    assert_eq!(
        out,
        vec![
            event(ResponseEvent::OutputItemAdded(call("ls", "", "call_A"))),
            event(ResponseEvent::ToolCallInputDelta {
                item_id: "tool_call_0".to_string(),
                call_id: Some("call_A".to_string()),
                delta: "{\"a\":".to_string(),
            }),
        ]
    );

    let out = st.step(chunk(
        r#"{"choices":[{"delta":{"tool_calls":[{"index":0,"function":{"arguments":"1}"}},{"id":"no index"}]}}]}"#,
    ));
    assert_eq!(
        out,
        vec![event(ResponseEvent::ToolCallInputDelta {
            item_id: "tool_call_0".to_string(),
            call_id: Some("call_A".to_string()),
            delta: "1}".to_string(),
        })]
    );

    let out = st.step(chunk(r#"{"choices":[{"finish_reason":"tool_calls"}]}"#));
    assert_eq!(
        out,
        vec![
            event(ResponseEvent::OutputItemDone(call("ls", "{\"a\":1}", "call_A"))),
            event(ResponseEvent::OutputItemDone(call("pwd", "", "call_B"))),
            event(ResponseEvent::Completed { response_id: String::new(), token_usage: None, end_turn: None }),
        ]
    );
    assert!(st.is_done());
}

#[test]
fn listed_tool_calls_take_precedence() {
    let (mut st, _) = ChatStreamState::open(None);
    let out = st.step(chunk(
        r#"{"choices":[{"finish_reason":"tool_calls","message":{"tool_calls":[{"id":"c7","function":{"name":"exec","arguments":"{}"}}]}}],"usage":null}"#,
    ));
    assert_eq!(
        out,
        vec![
            event(ResponseEvent::OutputItemDone(call("exec", "{}", "c7"))),
            event(ResponseEvent::Completed { response_id: String::new(), token_usage: None, end_turn: None }),
        ]
    );
}

#[test]
fn finish_without_text_still_announces_the_message() {
    let (mut st, _) = ChatStreamState::open(None);
    let out = st.step(chunk(r#"{"choices":[{"finish_reason":"length"}],"usage":{"total_tokens":5}}"#));
    assert_eq!(
        out,
        vec![
            placeholder(),
            event(ResponseEvent::OutputItemDone(ResponseItem::Message {
                role: "assistant".to_string(),
                content: vec![ContentItem::OutputText { text: String::new() }],
            })),
            event(ResponseEvent::Completed {
                response_id: String::new(),
                token_usage: Some(TokenUsage {
                    input_tokens: 0,
                    cached_input_tokens: 0,
                    output_tokens: 0,
                    reasoning_output_tokens: 0,
                    total_tokens: 5,
                }),
                end_turn: None,
            }),
        ]
    );
}

#[test]
fn parsed_chunks_apply_like_their_text() {
    let obj = |entries: Vec<(&str, Json)>| {
        Json::Object(entries.into_iter().map(|(k, v)| (k.to_string(), v)).collect())
    };
    let (mut st, _) = ChatStreamState::open(None);
    assert!(st.apply_parsed(None).is_empty());
    let chunk = obj(vec![
        ("id", Json::Str("r1".to_string())),
        (
            "choices",
            Json::Array(vec![obj(vec![("delta", obj(vec![("content", Json::Str("Hi".to_string()))]))])]),
        ),
    ]);
    let out = st.apply_parsed(Some(chunk));
    assert_eq!(out, vec![placeholder(), event(ResponseEvent::OutputTextDelta("Hi".to_string()))]);
    let usage = obj(vec![("total_tokens", Json::Number(JsonNumber::PosInt(2)))]);
    let done = obj(vec![
        ("choices", Json::Array(vec![obj(vec![("finish_reason", Json::Str("stop".to_string()))])])),
        ("usage", usage),
    ]);
    let out = st.apply_parsed(Some(done));
    assert_eq!(out.len(), 2);
    assert_eq!(
        out[1],
        event(ResponseEvent::Completed {
            response_id: "r1".to_string(),
            token_usage: Some(TokenUsage {
                input_tokens: 0,
                cached_input_tokens: 0,
                output_tokens: 0,
                reasoning_output_tokens: 0,
                total_tokens: 2,
            }),
            end_turn: None,
        })
    );
    assert!(st.is_done());
}

#[test]
fn negative_and_float_numbers_parse_but_do_not_count_as_indexes() {
    let (mut st, _) = ChatStreamState::open(None);
    let out = st.step(chunk(
        r#"{"choices":[{"delta":{"tool_calls":[{"index":1.5,"id":"x"},{"index":-2,"id":"neg","function":{"name":"f","arguments":"a"}}]}}]}"#,
    ));
    assert_eq!(
        out,
        vec![
            event(ResponseEvent::OutputItemAdded(call("f", "", "neg"))),
            event(ResponseEvent::ToolCallInputDelta {
                item_id: "tool_call_-2".to_string(),
                call_id: Some("neg".to_string()),
                delta: "a".to_string(),
            }),
        ]
    );
}

#[test]
fn finished_message_holds_all_streamed_text() {
    let (mut st, _) = ChatStreamState::open(None);
    let mut text = String::new();
    for piece in ["Hel", "", "lo", " wor", "ld"] {
        let data = String::from(r#"{"choices":[{"delta":{"content":""#) + piece + r#""}}]}"#;
        for item in st.step(chunk(&data)) {
            if let StreamItem::Event(ResponseEvent::OutputTextDelta(t)) = item {
                text.push_str(&t);
            }
        }
    }
    let out = st.step(chunk(r#"{"choices":[{"delta":{"content":"!"},"finish_reason":"stop"}]}"#));
    text.push('!');
    assert_eq!(out[0], event(ResponseEvent::OutputTextDelta("!".to_string())));
    assert_eq!(
        out[1],
        event(ResponseEvent::OutputItemDone(ResponseItem::Message {
            role: "assistant".to_string(),
            content: vec![ContentItem::OutputText { text: text.clone() }],
        }))
    );
    assert_eq!(text, "Hello world!");
    assert!(st.is_done());
}

#[test]
fn message_is_added_once_and_done_once_after_it() {
    let (mut st, _) = ChatStreamState::open(None);
    let mut all = Vec::new();
    for data in [
        r#"{"choices":[{"delta":{"reasoning_content":"think"}}]}"#,
        r#"{"choices":[{"delta":{"content":"a"}}]}"#,
        r#"{"choices":[{"delta":{"content":"b","reasoning_content":"more"}}]}"#,
        r#"{"choices":[{"delta":{},"finish_reason":"stop"}]}"#,
    ] {
        all.extend(st.step(chunk(data)));
    }
    let is_added = |i: &StreamItem| {
        matches!(i, StreamItem::Event(ResponseEvent::OutputItemAdded(ResponseItem::Message { .. })))
    };
    let is_done = |i: &StreamItem| {
        matches!(i, StreamItem::Event(ResponseEvent::OutputItemDone(ResponseItem::Message { .. })))
    };
    let added: Vec<usize> = (0..all.len()).filter(|&i| is_added(&all[i])).collect();
    let done: Vec<usize> = (0..all.len()).filter(|&i| is_done(&all[i])).collect();
    assert_eq!(added, vec![0]);
    assert_eq!(done.len(), 1);
    assert!(added[0] < done[0]);
    assert!(st.is_done());
}

#[test]
fn open_message_is_closed_before_tool_calls() {
    let (mut st, _) = ChatStreamState::open(None);
    let out = st.step(chunk(r#"{"choices":[{"delta":{"content":"Let me look."}}]}"#));
    assert_eq!(out, vec![placeholder(), event(ResponseEvent::OutputTextDelta("Let me look.".to_string()))]);
    let out = st.step(chunk(
        r#"{"choices":[{"delta":{"tool_calls":[{"index":0,"id":"c1","function":{"name":"ls","arguments":"{}"}}]},"finish_reason":"tool_calls"}]}"#,
    ));
    assert_eq!(
        out,
        vec![
            event(ResponseEvent::OutputItemAdded(call("ls", "", "c1"))),
            event(ResponseEvent::ToolCallInputDelta {
                item_id: "tool_call_0".to_string(),
                call_id: Some("c1".to_string()),
                delta: "{}".to_string(),
            }),
            event(ResponseEvent::OutputItemDone(ResponseItem::Message {
                role: "assistant".to_string(),
                content: vec![ContentItem::OutputText { text: "Let me look.".to_string() }],
            })),
            event(ResponseEvent::OutputItemDone(call("ls", "{}", "c1"))),
            event(ResponseEvent::Completed { response_id: String::new(), token_usage: None, end_turn: None }),
        ]
    );
}
