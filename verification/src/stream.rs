//! Conversion of a Chat Completions server-sent event stream into Responses
//! API events.
//!
//! The conversion is a state machine: [`ChatStreamState::open`] starts it,
//! and [`ChatStreamState::step`] takes one input (a chunk of the stream, or the
//! way the stream failed or ended) and gives back the items to pass on.  The
//! code that reads the stream feeds inputs until the state is done.
use vstd::prelude::*;

use crate::json::{
    lemma_array_view, opt_json_view, opt_view, parse_json, parsed_json, values_view, JValue, Json,
};
use crate::request::{owned, str_member_or_empty, str_or_empty};
use crate::text::{int_text, str_eq, trim, trimmed, with_decimal_suffix};

verus! {

// ---------------------------------------------------------------------------
// Events
// ---------------------------------------------------------------------------

/// A content item of a message.
#[derive(Debug, PartialEq)]
pub enum ContentItem {
    OutputText { text: String },
}

/// An item of a model response.
#[derive(Debug, PartialEq)]
pub enum ResponseItem {
    /// A message, with its role and content.
    Message { role: String, content: Vec<ContentItem> },
    /// A call of a function tool.
    FunctionCall { name: String, arguments: String, call_id: String },
}

/// Token counts of a response.
#[derive(Debug, PartialEq, Clone, Copy)]
pub struct TokenUsage {
    pub input_tokens: i64,
    pub cached_input_tokens: i64,
    pub output_tokens: i64,
    pub reasoning_output_tokens: i64,
    pub total_tokens: i64,
}

/// A Responses API stream event.
#[derive(Debug, PartialEq)]
pub enum ResponseEvent {
    /// The model the server says it used.
    ServerModel(String),
    OutputItemAdded(ResponseItem),
    OutputTextDelta(String),
    ReasoningContentDelta { delta: String, content_index: i64 },
    ToolCallInputDelta { item_id: String, call_id: Option<String>, delta: String },
    OutputItemDone(ResponseItem),
    Completed { response_id: String, token_usage: Option<TokenUsage>, end_turn: Option<bool> },
}

/// What the stream passes on: an event, or a stream error with its message.
#[derive(Debug, PartialEq)]
pub enum StreamItem {
    Event(ResponseEvent),
    Error(String),
}

/// One input of the state machine.
pub enum StreamInput {
    /// A server-sent event, with its data field.
    Data { data: String },
    /// The event stream failed, with this message.
    Failure(String),
    /// The event stream ended.
    Closed,
    /// No event came within the idle timeout.
    IdleTimeout,
}

/// View of a [`ResponseItem`]; a message's content is the list of its texts.
pub enum ResponseItemV {
    Message { role: Seq<char>, texts: Seq<Seq<char>> },
    FunctionCall { name: Seq<char>, arguments: Seq<char>, call_id: Seq<char> },
}

/// View of a [`ResponseEvent`].
pub enum ResponseEventV {
    ServerModel(Seq<char>),
    OutputItemAdded(ResponseItemV),
    OutputTextDelta(Seq<char>),
    ReasoningContentDelta { delta: Seq<char>, content_index: i64 },
    ToolCallInputDelta { item_id: Seq<char>, call_id: Option<Seq<char>>, delta: Seq<char> },
    OutputItemDone(ResponseItemV),
    Completed { response_id: Seq<char>, token_usage: Option<TokenUsage>, end_turn: Option<bool> },
}

/// View of a [`StreamItem`].
pub enum StreamItemV {
    Event(ResponseEventV),
    Error(Seq<char>),
}

/// View of a [`StreamInput`].
pub enum StreamInputV {
    Data { data: Seq<char> },
    Failure(Seq<char>),
    Closed,
    IdleTimeout,
}

impl View for ResponseItem {
    type V = ResponseItemV;

    open spec fn view(&self) -> ResponseItemV {
        match self {
            ResponseItem::Message { role, content } => ResponseItemV::Message {
                role: role@,
                texts: Seq::new(
                    content@.len(),
                    |i: int|
                        match content@[i] {
                            ContentItem::OutputText { text } => text@,
                        },
                ),
            },
            ResponseItem::FunctionCall { name, arguments, call_id } => ResponseItemV::FunctionCall {
                name: name@,
                arguments: arguments@,
                call_id: call_id@,
            },
        }
    }
}

impl View for ResponseEvent {
    type V = ResponseEventV;

    open spec fn view(&self) -> ResponseEventV {
        match self {
            ResponseEvent::ServerModel(m) => ResponseEventV::ServerModel(m@),
            ResponseEvent::OutputItemAdded(it) => ResponseEventV::OutputItemAdded(it@),
            ResponseEvent::OutputTextDelta(d) => ResponseEventV::OutputTextDelta(d@),
            ResponseEvent::ReasoningContentDelta { delta, content_index } => {
                ResponseEventV::ReasoningContentDelta { delta: delta@, content_index: *content_index }
            },
            ResponseEvent::ToolCallInputDelta { item_id, call_id, delta } => {
                ResponseEventV::ToolCallInputDelta {
                    item_id: item_id@,
                    call_id: match call_id {
                        Some(c) => Some(c@),
                        None => None,
                    },
                    delta: delta@,
                }
            },
            ResponseEvent::OutputItemDone(it) => ResponseEventV::OutputItemDone(it@),
            ResponseEvent::Completed { response_id, token_usage, end_turn } => {
                ResponseEventV::Completed {
                    response_id: response_id@,
                    token_usage: *token_usage,
                    end_turn: *end_turn,
                }
            },
        }
    }
}

impl View for StreamItem {
    type V = StreamItemV;

    open spec fn view(&self) -> StreamItemV {
        match self {
            StreamItem::Event(e) => StreamItemV::Event(e@),
            StreamItem::Error(m) => StreamItemV::Error(m@),
        }
    }
}

impl View for StreamInput {
    type V = StreamInputV;

    open spec fn view(&self) -> StreamInputV {
        match self {
            StreamInput::Data { data } => StreamInputV::Data { data: data@ },
            StreamInput::Failure(m) => StreamInputV::Failure(m@),
            StreamInput::Closed => StreamInputV::Closed,
            StreamInput::IdleTimeout => StreamInputV::IdleTimeout,
        }
    }
}

/// The views of a list of stream items.
pub open spec fn items_view(items: Seq<StreamItem>) -> Seq<StreamItemV> {
    Seq::new(items.len(), |i: int| items[i]@)
}

// ---------------------------------------------------------------------------
// State
// ---------------------------------------------------------------------------

/// What has come in so far for one streamed tool call.
pub struct ToolCallState {
    index: i64,
    id: String,
    name: String,
    arguments: String,
    announced: bool,
}

/// View of a [`ToolCallState`].
pub struct ToolCallV {
    pub index: i64,
    pub id: Seq<char>,
    pub name: Seq<char>,
    pub arguments: Seq<char>,
    /// Whether the call's `OutputItemAdded` has been sent.
    pub announced: bool,
}

/// The state of one converted stream.
pub struct ChatStreamState {
    response_id: Option<String>,
    text: String,
    message_added: bool,
    tool_calls: Vec<ToolCallState>,
    done: bool,
}

/// View of a [`ChatStreamState`].
pub struct StreamStateV {
    /// The last response id seen in a chunk.
    pub response_id: Option<Seq<char>>,
    /// All message text received so far.
    pub text: Seq<char>,
    /// Whether the assistant message's `OutputItemAdded` has been sent.
    pub message_added: bool,
    /// Streamed tool calls, by index.
    pub tool_calls: Seq<ToolCallV>,
    /// Whether the stream has ended.
    pub done: bool,
}

impl View for ToolCallState {
    type V = ToolCallV;

    closed spec fn view(&self) -> ToolCallV {
        ToolCallV {
            index: self.index,
            id: self.id@,
            name: self.name@,
            arguments: self.arguments@,
            announced: self.announced,
        }
    }
}

impl View for ChatStreamState {
    type V = StreamStateV;

    closed spec fn view(&self) -> StreamStateV {
        StreamStateV {
            response_id: match self.response_id {
                Some(r) => Some(r@),
                None => None,
            },
            text: self.text@,
            message_added: self.message_added,
            tool_calls: Seq::new(self.tool_calls@.len(), |i: int| self.tool_calls@[i]@),
            done: self.done,
        }
    }
}

// ---------------------------------------------------------------------------
// Specification
// ---------------------------------------------------------------------------

/// The state before any event.
pub open spec fn initial_state() -> StreamStateV {
    StreamStateV {
        response_id: None,
        text: Seq::empty(),
        message_added: false,
        tool_calls: Seq::empty(),
        done: false,
    }
}

/// The empty assistant message announced before its text.
pub open spec fn assistant_placeholder() -> ResponseItemV {
    ResponseItemV::Message { role: "assistant"@, texts: Seq::empty() }
}

/// An event item.
pub open spec fn ev(e: ResponseEventV) -> StreamItemV {
    StreamItemV::Event(e)
}

/// The string `k2` inside the member `k1`.
pub open spec fn nested_str(v: JValue, k1: Seq<char>, k2: Seq<char>) -> Option<Seq<char>> {
    match v.get(k1) {
        Some(f) => f.get_str(k2),
        None => None,
    }
}

/// The text, or the empty string.
pub open spec fn or_empty(s: Option<Seq<char>>) -> Seq<char> {
    match s {
        Some(t) => t,
        None => Seq::empty(),
    }
}

/// The integer, or 0.
pub open spec fn or_zero(n: Option<i64>) -> i64 {
    match n {
        Some(v) => v,
        None => 0,
    }
}

/// The first element of the chunk's `"choices"` array.
pub open spec fn first_choice(chunk: JValue) -> Option<JValue> {
    match chunk.get("choices"@) {
        Some(JValue::Array(a)) => if a.len() > 0 {
            Some(a[0])
        } else {
            None
        },
        _ => None,
    }
}

/// The assistant message announced, unless it already was.
pub open spec fn with_message_added(s: StreamStateV) -> (StreamStateV, Seq<StreamItemV>) {
    if s.message_added {
        (s, Seq::empty())
    } else {
        (
            StreamStateV { message_added: true, ..s },
            seq![ev(ResponseEventV::OutputItemAdded(assistant_placeholder()))],
        )
    }
}

/// A delta's non-empty `"content"` passed on as message text.
pub open spec fn content_delta(s: StreamStateV, delta: JValue) -> (StreamStateV, Seq<StreamItemV>) {
    match delta.get_str("content"@) {
        Some(c) => if c.len() > 0 {
            let (s1, e) = with_message_added(s);
            (StreamStateV { text: s1.text + c, ..s1 }, e.push(ev(ResponseEventV::OutputTextDelta(c))))
        } else {
            (s, Seq::empty())
        },
        None => (s, Seq::empty()),
    }
}

/// A delta's non-empty `"reasoning_content"` passed on as reasoning text.
pub open spec fn reasoning_delta(s: StreamStateV, delta: JValue) -> (StreamStateV, Seq<StreamItemV>) {
    match delta.get_str("reasoning_content"@) {
        Some(r) => if r.len() > 0 {
            let (s1, e) = with_message_added(s);
            (s1, e.push(ev(ResponseEventV::ReasoningContentDelta { delta: r, content_index: 0 })))
        } else {
            (s, Seq::empty())
        },
        None => (s, Seq::empty()),
    }
}

/// The streamed tool call with this index.
pub open spec fn tool_find(calls: Seq<ToolCallV>, index: i64) -> Option<ToolCallV>
    decreases calls.len(),
{
    if calls.len() == 0 {
        None
    } else if calls.last().index == index {
        Some(calls.last())
    } else {
        tool_find(calls.drop_last(), index)
    }
}

/// The tool calls with `t` put in place of the one with its index, or inserted
/// before the first one with a higher index.
pub open spec fn tool_upsert(calls: Seq<ToolCallV>, t: ToolCallV) -> Seq<ToolCallV>
    decreases calls.len(),
{
    if calls.len() == 0 {
        seq![t]
    } else if calls.last().index == t.index {
        calls.update(calls.len() - 1, t)
    } else if calls.last().index < t.index {
        calls.push(t)
    } else {
        tool_upsert(calls.drop_last(), t).push(calls.last())
    }
}

/// The item id of a streamed tool call's argument deltas.
pub open spec fn tool_call_item_id(index: i64) -> Seq<char> {
    "tool_call_"@ + int_text(index as int)
}

/// One tool call delta: its id, name and arguments recorded, the call
/// announced when first seen, and non-empty arguments passed on.
pub open spec fn tool_delta(s: StreamStateV, tc: JValue) -> (StreamStateV, Seq<StreamItemV>) {
    match tc.get_i64("index"@) {
        None => (s, Seq::empty()),
        Some(index) => {
            let prev = match tool_find(s.tool_calls, index) {
                Some(t) => t,
                None => ToolCallV {
                    index,
                    id: Seq::empty(),
                    name: Seq::empty(),
                    arguments: Seq::empty(),
                    announced: false,
                },
            };
            let id = match tc.get_str("id"@) {
                Some(i) => i,
                None => prev.id,
            };
            let name = match nested_str(tc, "function"@, "name"@) {
                Some(n) => n,
                None => prev.name,
            };
            let args = or_empty(nested_str(tc, "function"@, "arguments"@));
            let t = ToolCallV { index, id, name, arguments: prev.arguments + args, announced: true };
            let e1 = if prev.announced {
                Seq::empty()
            } else {
                seq![
                    ev(
                        ResponseEventV::OutputItemAdded(
                            ResponseItemV::FunctionCall { name, arguments: Seq::empty(), call_id: id },
                        ),
                    ),
                ]
            };
            let e2 = if args.len() > 0 {
                seq![
                    ev(
                        ResponseEventV::ToolCallInputDelta {
                            item_id: tool_call_item_id(index),
                            call_id: Some(id),
                            delta: args,
                        },
                    ),
                ]
            } else {
                Seq::empty()
            };
            (StreamStateV { tool_calls: tool_upsert(s.tool_calls, t), ..s }, e1 + e2)
        },
    }
}

/// Tool call deltas applied in order.
pub open spec fn tool_deltas(s: StreamStateV, tcs: Seq<JValue>) -> (StreamStateV, Seq<StreamItemV>)
    decreases tcs.len(),
{
    if tcs.len() == 0 {
        (s, Seq::empty())
    } else {
        let (s1, e1) = tool_deltas(s, tcs.drop_last());
        let (s2, e2) = tool_delta(s1, tcs.last());
        (s2, e1 + e2)
    }
}

/// A choice's `"delta"` applied: content, then reasoning, then tool calls.
pub open spec fn delta_applied(s: StreamStateV, delta: JValue) -> (StreamStateV, Seq<StreamItemV>) {
    let (s1, e1) = content_delta(s, delta);
    let (s2, e2) = reasoning_delta(s1, delta);
    let (s3, e3) = match delta.get("tool_calls"@) {
        Some(JValue::Array(a)) => tool_deltas(s2, a),
        _ => (s2, Seq::empty()),
    };
    (s3, e1 + e2 + e3)
}

/// A finished tool call as the final message lists it.
pub open spec fn listed_tool_call(tc: JValue) -> ResponseItemV {
    ResponseItemV::FunctionCall {
        name: or_empty(nested_str(tc, "function"@, "name"@)),
        arguments: or_empty(nested_str(tc, "function"@, "arguments"@)),
        call_id: str_or_empty(tc, "id"@),
    }
}

/// A finished tool call as the streamed deltas built it.
pub open spec fn streamed_tool_call(t: ToolCallV) -> ResponseItemV {
    ResponseItemV::FunctionCall { name: t.name, arguments: t.arguments, call_id: t.id }
}

/// The `"message"."tool_calls"` array of a choice, or nothing.
pub open spec fn message_tool_calls(choice: JValue) -> Seq<JValue> {
    match choice.get("message"@) {
        Some(m) => match m.get("tool_calls"@) {
            Some(JValue::Array(a)) => a,
            _ => Seq::empty(),
        },
        None => Seq::empty(),
    }
}

/// The token usage of a chunk's `"usage"` object; missing counts are 0.
pub open spec fn usage_of(chunk: JValue) -> Option<TokenUsage> {
    match chunk.get("usage"@) {
        Some(u) => match u {
            JValue::Object(_) => Some(
                TokenUsage {
                    input_tokens: or_zero(u.get_i64("prompt_tokens"@)),
                    cached_input_tokens: 0,
                    output_tokens: or_zero(u.get_i64("completion_tokens"@)),
                    reasoning_output_tokens: or_zero(
                        match u.get("completion_tokens_details"@) {
                            Some(d) => d.get_i64("reasoning_tokens"@),
                            None => None,
                        },
                    ),
                    total_tokens: or_zero(u.get_i64("total_tokens"@)),
                },
            ),
            _ => None,
        },
        None => None,
    }
}

/// The completion that ends a stream.
pub open spec fn completed(s: StreamStateV, usage: Option<TokenUsage>) -> StreamItemV {
    ev(
        ResponseEventV::Completed {
            response_id: or_empty(s.response_id),
            token_usage: usage,
            end_turn: None,
        },
    )
}

/// The assistant message finished, when it was announced: the tool calls of a
/// `"tool_calls"` finish come after it.
pub open spec fn closing_items(s: StreamStateV) -> Seq<StreamItemV> {
    if s.message_added {
        seq![done_message(s.text)]
    } else {
        Seq::empty()
    }
}

/// The items that close the output when a choice has a finish reason: when
/// the reason is `"tool_calls"`, the open message closed and then the tool
/// calls (as listed in the message, else as streamed); the whole assistant
/// message otherwise; then the completion.
pub open spec fn finish_items(s: StreamStateV, choice: JValue, chunk: JValue, reason: Seq<char>) -> Seq<
    StreamItemV,
> {
    let items = if reason == "tool_calls"@ {
        let listed = message_tool_calls(choice);
        closing_items(s) + if listed.len() > 0 {
            listed.map_values(|tc: JValue| ev(ResponseEventV::OutputItemDone(listed_tool_call(tc))))
        } else {
            s.tool_calls.map_values(
                |t: ToolCallV| ev(ResponseEventV::OutputItemDone(streamed_tool_call(t))),
            )
        }
    } else {
        (if s.message_added {
            Seq::empty()
        } else {
            seq![ev(ResponseEventV::OutputItemAdded(assistant_placeholder()))]
        }).push(
            ev(
                ResponseEventV::OutputItemDone(
                    ResponseItemV::Message { role: "assistant"@, texts: seq![s.text] },
                ),
            ),
        )
    };
    items.push(completed(s, usage_of(chunk)))
}

/// One parsed chunk applied.
pub open spec fn chunk_applied(s: StreamStateV, chunk: JValue) -> (StreamStateV, Seq<StreamItemV>) {
    let s1 = match chunk.get_str("id"@) {
        Some(id) => StreamStateV { response_id: Some(id), ..s },
        None => s,
    };
    match first_choice(chunk) {
        None => (s1, Seq::empty()),
        Some(choice) => {
            let (s2, e1) = match choice.get("delta"@) {
                Some(d) => delta_applied(s1, d),
                None => (s1, Seq::empty()),
            };
            match choice.get_str("finish_reason"@) {
                Some(reason) => (
                    StreamStateV { done: true, ..s2 },
                    e1 + finish_items(s2, choice, chunk, reason),
                ),
                None => (s2, e1),
            }
        },
    }
}

/// The data of an event applied, as the JSON parser read it: a chunk is
/// applied, and data that is not JSON is skipped.
pub open spec fn parsed_applied(s: StreamStateV, parsed: Option<JValue>) -> (StreamStateV, Seq<
    StreamItemV,
>) {
    match parsed {
        Some(chunk) => chunk_applied(s, chunk),
        None => (s, Seq::empty()),
    }
}

/// The state after the stream ended.
pub open spec fn ended(s: StreamStateV) -> StreamStateV {
    StreamStateV { done: true, ..s }
}

/// One input of the state machine applied.
pub open spec fn stream_step(s: StreamStateV, input: StreamInputV) -> (StreamStateV, Seq<StreamItemV>) {
    match input {
        StreamInputV::Data { data } => if trimmed(data) == "[DONE]"@ {
            (ended(s), seq![completed(s, None)])
        } else {
            parsed_applied(s, parsed_json(trimmed(data)))
        },
        StreamInputV::Failure(msg) => (ended(s), seq![StreamItemV::Error("SSE error: "@ + msg)]),
        StreamInputV::Closed => (
            ended(s),
            seq![StreamItemV::Error("stream closed before response.completed"@)],
        ),
        StreamInputV::IdleTimeout => (
            ended(s),
            seq![StreamItemV::Error("idle timeout waiting for SSE"@)],
        ),
    }
}

/// The items sent before the first input: the server's model, when the
/// response named one.
pub open spec fn opening_items(model: Option<Seq<char>>) -> Seq<StreamItemV> {
    match model {
        Some(m) => seq![ev(ResponseEventV::ServerModel(m))],
        None => Seq::empty(),
    }
}

// ---------------------------------------------------------------------------
// Lemmas
// ---------------------------------------------------------------------------

/// Entries after position `j` that have another index do not change the lookup.
pub proof fn lemma_tool_find_prefix(calls: Seq<ToolCallV>, index: i64, j: int)
    requires
        0 <= j <= calls.len(),
        forall|m: int| j <= m < calls.len() ==> (#[trigger] calls[m]).index != index,
    ensures
        tool_find(calls, index) == tool_find(calls.take(j), index),
    decreases calls.len(),
{
    if j == calls.len() {
        assert(calls.take(j) =~= calls);
    } else {
        let d = calls.drop_last();
        assert(d.take(j) =~= calls.take(j));
        lemma_tool_find_prefix(d, index, j);
    }
}

/// Entries after position `j` that have a higher index stay after the upserted one.
pub proof fn lemma_tool_upsert_split(calls: Seq<ToolCallV>, t: ToolCallV, j: int)
    requires
        0 <= j <= calls.len(),
        forall|m: int| j <= m < calls.len() ==> (#[trigger] calls[m]).index > t.index,
    ensures
        tool_upsert(calls, t) == tool_upsert(calls.take(j), t) + calls.skip(j),
    decreases calls.len(),
{
    if j == calls.len() {
        assert(calls.take(j) =~= calls);
        assert(calls.skip(j) =~= Seq::<ToolCallV>::empty());
        assert(tool_upsert(calls, t) + Seq::<ToolCallV>::empty() =~= tool_upsert(calls, t));
    } else {
        let d = calls.drop_last();
        assert(d.take(j) =~= calls.take(j));
        lemma_tool_upsert_split(d, t, j);
        assert(d.skip(j).push(calls.last()) =~= calls.skip(j));
        assert((tool_upsert(calls.take(j), t) + d.skip(j)).push(calls.last()) =~= tool_upsert(
            calls.take(j),
            t,
        ) + calls.skip(j));
    }
}

// ---------------------------------------------------------------------------
// Implementation
// ---------------------------------------------------------------------------

fn push_item(out: &mut Vec<StreamItem>, item: StreamItem)
    ensures
        items_view(final(out)@) == items_view(old(out)@).push(item@),
{
    let ghost g = item@;
    out.push(item);
    proof {
        assert(items_view(out@) =~= items_view(old(out)@).push(g));
    }
}

fn assistant_placeholder_exec() -> (r: ResponseItem)
    ensures
        r@ == assistant_placeholder(),
{
    let r = ResponseItem::Message { role: owned("assistant"), content: Vec::new() };
    proof {
        assert(r@->Message_texts =~= Seq::<Seq<char>>::empty());
    }
    r
}

impl ToolCallState {
    fn copy(&self) -> (r: ToolCallState)
        ensures
            r@ == self@,
    {
        ToolCallState {
            index: self.index,
            id: self.id.clone(),
            name: self.name.clone(),
            arguments: self.arguments.clone(),
            announced: self.announced,
        }
    }
}

/// The string `k2` inside the member `k1`.
fn nested_str_exec<'a>(v: &'a Json, k1: &str, k2: &str) -> (r: Option<&'a String>)
    ensures
        match r {
            Some(x) => nested_str(v@, k1@, k2@) == Some(x@),
            None => nested_str(v@, k1@, k2@) is None,
        },
{
    match v.get(k1) {
        Some(f) => f.get_str(k2),
        None => None,
    }
}

impl ChatStreamState {
    /// Start converting a stream.  `model` is the model the server named in
    /// the response headers, if it named one; it is passed on first.
    pub fn open(model: Option<String>) -> (r: (ChatStreamState, Vec<StreamItem>))
        ensures
            r.0@ == initial_state(),
            items_view(r.1@) == opening_items(opt_view(model)),
    {
        let st = ChatStreamState {
            response_id: None,
            text: String::new(),
            message_added: false,
            tool_calls: Vec::new(),
            done: false,
        };
        let mut out: Vec<StreamItem> = Vec::new();
        proof {
            assert(items_view(out@) =~= Seq::<StreamItemV>::empty());
            assert(st@.tool_calls =~= Seq::<ToolCallV>::empty());
        }
        match model {
            Some(m) => {
                push_item(&mut out, StreamItem::Event(ResponseEvent::ServerModel(m)));
            },
            None => {},
        }
        (st, out)
    }

    /// Whether the stream has ended; no more input is to be fed then.
    pub fn is_done(&self) -> (r: bool)
        ensures
            r == self@.done,
    {
        self.done
    }

    fn announce_message(&mut self, out: &mut Vec<StreamItem>)
        ensures
            final(self)@ == with_message_added(old(self)@).0,
            items_view(final(out)@) == items_view(old(out)@) + with_message_added(old(self)@).1,
    {
        if !self.message_added {
            self.message_added = true;
            push_item(out, StreamItem::Event(ResponseEvent::OutputItemAdded(assistant_placeholder_exec())));
        } else {
            proof {
                assert(items_view(out@) + Seq::<StreamItemV>::empty() =~= items_view(out@));
            }
        }
    }

    fn apply_content(&mut self, delta: &Json, out: &mut Vec<StreamItem>)
        ensures
            final(self)@ == content_delta(old(self)@, delta@).0,
            items_view(final(out)@) == items_view(old(out)@) + content_delta(old(self)@, delta@).1,
    {
        match delta.get_str("content") {
            Some(c) => {
                if !c.as_str().is_empty() {
                    let ghost o = items_view(out@);
                    self.announce_message(out);
                    self.text.append(c.as_str());
                    push_item(out, StreamItem::Event(ResponseEvent::OutputTextDelta(c.clone())));
                    proof {
                        let e = with_message_added(old(self)@).1;
                        assert(items_view(out@) =~= o + e.push(
                            ev(ResponseEventV::OutputTextDelta(c@)),
                        ));
                    }
                } else {
                    proof {
                        assert(items_view(out@) + Seq::<StreamItemV>::empty() =~= items_view(out@));
                    }
                }
            },
            None => {
                proof {
                    assert(items_view(out@) + Seq::<StreamItemV>::empty() =~= items_view(out@));
                }
            },
        }
    }

    fn apply_reasoning(&mut self, delta: &Json, out: &mut Vec<StreamItem>)
        ensures
            final(self)@ == reasoning_delta(old(self)@, delta@).0,
            items_view(final(out)@) == items_view(old(out)@) + reasoning_delta(old(self)@, delta@).1,
    {
        match delta.get_str("reasoning_content") {
            Some(r) => {
                if !r.as_str().is_empty() {
                    let ghost o = items_view(out@);
                    self.announce_message(out);
                    push_item(
                        out,
                        StreamItem::Event(
                            ResponseEvent::ReasoningContentDelta { delta: r.clone(), content_index: 0 },
                        ),
                    );
                    proof {
                        let e = with_message_added(old(self)@).1;
                        assert(items_view(out@) =~= o + e.push(
                            ev(ResponseEventV::ReasoningContentDelta { delta: r@, content_index: 0 }),
                        ));
                    }
                } else {
                    proof {
                        assert(items_view(out@) + Seq::<StreamItemV>::empty() =~= items_view(out@));
                    }
                }
            },
            None => {
                proof {
                    assert(items_view(out@) + Seq::<StreamItemV>::empty() =~= items_view(out@));
                }
            },
        }
    }

    /// Position of the streamed tool call with this index.
    fn find_tool(&self, index: i64) -> (r: Option<usize>)
        ensures
            match r {
                Some(i) => i < self.tool_calls@.len() && tool_find(self@.tool_calls, index) == Some(
                    self@.tool_calls[i as int],
                ),
                None => tool_find(self@.tool_calls, index) is None,
            },
    {
        let ghost calls = self@.tool_calls;
        let mut j = self.tool_calls.len();
        while j > 0
            invariant
                j <= self.tool_calls@.len(),
                calls == self@.tool_calls,
                forall|m: int| j <= m < calls.len() ==> (#[trigger] calls[m]).index != index,
            decreases j,
        {
            if self.tool_calls[j - 1].index == index {
                proof {
                    lemma_tool_find_prefix(calls, index, j as int);
                    assert(calls.take(j as int).last() == calls[j - 1]);
                }
                return Some(j - 1);
            }
            j -= 1;
        }
        proof {
            lemma_tool_find_prefix(calls, index, 0);
        }
        None
    }

    /// Put `t` in place of the tool call with its index, or insert it before
    /// the first one with a higher index.
    fn upsert_tool(&mut self, t: ToolCallState)
        ensures
            final(self)@ == (StreamStateV {
                tool_calls: tool_upsert(old(self)@.tool_calls, t@),
                ..old(self)@
            }),
    {
        let ghost calls = self@.tool_calls;
        let ghost tv = t@;
        let mut j = self.tool_calls.len();
        while j > 0 && self.tool_calls[j - 1].index > t.index
            invariant
                j <= self.tool_calls@.len(),
                calls == self@.tool_calls,
                self@ == old(self)@,
                tv == t@,
                forall|m: int| j <= m < calls.len() ==> (#[trigger] calls[m]).index > t.index,
            decreases j,
        {
            j -= 1;
        }
        proof {
            lemma_tool_upsert_split(calls, tv, j as int);
        }
        if j > 0 && self.tool_calls[j - 1].index == t.index {
            self.tool_calls.set(j - 1, t);
            proof {
                assert(calls.take(j as int).drop_last() =~= calls.take(j - 1));
                assert(tool_upsert(calls.take(j as int), tv) =~= calls.take(j as int).update(
                    j - 1,
                    tv,
                ));
                assert(self@.tool_calls =~= calls.take(j as int).update(j - 1, tv) + calls.skip(
                    j as int,
                ));
                assert(self@.tool_calls == tool_upsert(calls, tv));
                assert(self@.response_id == old(self)@.response_id);
            }
        } else {
            self.tool_calls.insert(j, t);
            proof {
                if j > 0 {
                    assert(tool_upsert(calls.take(j as int), tv) =~= calls.take(j as int).push(tv));
                } else {
                    assert(tool_upsert(calls.take(j as int), tv) =~= seq![tv]);
                }
                assert(self@.tool_calls =~= calls.take(j as int).push(tv) + calls.skip(j as int));
                assert(self@.tool_calls == tool_upsert(calls, tv));
            }
        }
    }

    fn apply_tool_delta(&mut self, tc: &Json, out: &mut Vec<StreamItem>)
        ensures
            final(self)@ == tool_delta(old(self)@, tc@).0,
            items_view(final(out)@) == items_view(old(out)@) + tool_delta(old(self)@, tc@).1,
    {
        let index = match tc.get_i64("index") {
            Some(i) => i,
            None => {
                proof {
                    assert(items_view(out@) + Seq::<StreamItemV>::empty() =~= items_view(out@));
                }
                return ;
            },
        };
        let prev = match self.find_tool(index) {
            Some(i) => self.tool_calls[i].copy(),
            None => ToolCallState {
                index,
                id: String::new(),
                name: String::new(),
                arguments: String::new(),
                announced: false,
            },
        };
        let id = match tc.get_str("id") {
            Some(i) => i.clone(),
            None => prev.id.clone(),
        };
        let name = match nested_str_exec(tc, "function", "name") {
            Some(n) => n.clone(),
            None => prev.name.clone(),
        };
        let args = match nested_str_exec(tc, "function", "arguments") {
            Some(a) => a.clone(),
            None => String::new(),
        };
        let mut arguments = prev.arguments.clone();
        arguments.append(args.as_str());
        let ghost o = items_view(out@);
        if !prev.announced {
            push_item(
                out,
                StreamItem::Event(
                    ResponseEvent::OutputItemAdded(
                        ResponseItem::FunctionCall {
                            name: name.clone(),
                            arguments: String::new(),
                            call_id: id.clone(),
                        },
                    ),
                ),
            );
        }
        let ghost mid = items_view(out@);
        if !args.as_str().is_empty() {
            let item_id = with_decimal_suffix("tool_call_", index);
            push_item(
                out,
                StreamItem::Event(
                    ResponseEvent::ToolCallInputDelta {
                        item_id,
                        call_id: Some(id.clone()),
                        delta: args,
                    },
                ),
            );
        }
        let t = ToolCallState { index, id, name, arguments, announced: true };
        self.upsert_tool(t);
        proof {
            let e = tool_delta(old(self)@, tc@).1;
            assert(items_view(out@) =~= o + e);
        }
    }

    fn apply_tool_deltas(&mut self, tcs: &Vec<Json>, out: &mut Vec<StreamItem>)
        ensures
            final(self)@ == tool_deltas(old(self)@, values_view(tcs@)).0,
            items_view(final(out)@) == items_view(old(out)@) + tool_deltas(
                old(self)@,
                values_view(tcs@),
            ).1,
    {
        let ghost vv = values_view(tcs@);
        let ghost s0 = self@;
        let ghost o0 = items_view(out@);
        let mut i: usize = 0;
        proof {
            assert(o0 + Seq::<StreamItemV>::empty() =~= o0);
        }
        while i < tcs.len()
            invariant
                i <= tcs.len(),
                vv == values_view(tcs@),
                self@ == tool_deltas(s0, vv.take(i as int)).0,
                items_view(out@) == o0 + tool_deltas(s0, vv.take(i as int)).1,
            decreases tcs.len() - i,
        {
            proof {
                assert(vv.take(i + 1).drop_last() =~= vv.take(i as int));
            }
            let ghost before = items_view(out@);
            self.apply_tool_delta(&tcs[i], out);
            proof {
                let (s1, e1) = tool_deltas(s0, vv.take(i as int));
                let (s2, e2) = tool_delta(s1, tcs@[i as int]@);
                assert(items_view(out@) =~= o0 + (e1 + e2));
            }
            i += 1;
        }
        proof {
            assert(vv.take(i as int) =~= vv);
        }
    }

    fn apply_delta(&mut self, delta: &Json, out: &mut Vec<StreamItem>)
        ensures
            final(self)@ == delta_applied(old(self)@, delta@).0,
            items_view(final(out)@) == items_view(old(out)@) + delta_applied(old(self)@, delta@).1,
    {
        let ghost o = items_view(out@);
        self.apply_content(delta, out);
        let ghost o1 = items_view(out@);
        self.apply_reasoning(delta, out);
        let ghost o2 = items_view(out@);
        match delta.get("tool_calls") {
            Some(Json::Array(a)) => {
                proof {
                    lemma_array_view(*a);
                }
                self.apply_tool_deltas(a, out);
            },
            _ => {},
        }
        proof {
            let (s1, e1) = content_delta(old(self)@, delta@);
            let (s2, e2) = reasoning_delta(s1, delta@);
            let (s3, e3) = match delta@.get("tool_calls"@) {
                Some(JValue::Array(a)) => tool_deltas(s2, a),
                _ => (s2, Seq::empty()),
            };
            assert(items_view(out@) =~= o + (e1 + e2 + e3));
        }
    }

    fn usage(chunk: &Json) -> (r: Option<TokenUsage>)
        ensures
            r == usage_of(chunk@),
    {
        match chunk.get("usage") {
            Some(u) => match u {
                Json::Object(_) => {
                    let reasoning = match u.get("completion_tokens_details") {
                        Some(d) => d.get_i64("reasoning_tokens"),
                        None => None,
                    };
                    Some(
                        TokenUsage {
                            input_tokens: match u.get_i64("prompt_tokens") {
                                Some(v) => v,
                                None => 0,
                            },
                            cached_input_tokens: 0,
                            output_tokens: match u.get_i64("completion_tokens") {
                                Some(v) => v,
                                None => 0,
                            },
                            reasoning_output_tokens: match reasoning {
                                Some(v) => v,
                                None => 0,
                            },
                            total_tokens: match u.get_i64("total_tokens") {
                                Some(v) => v,
                                None => 0,
                            },
                        },
                    )
                },
                _ => None,
            },
            None => None,
        }
    }

    fn completed_item(&self, usage: Option<TokenUsage>) -> (r: StreamItem)
        ensures
            r@ == completed(self@, usage),
    {
        let response_id = match &self.response_id {
            Some(r) => r.clone(),
            None => String::new(),
        };
        StreamItem::Event(ResponseEvent::Completed { response_id, token_usage: usage, end_turn: None })
    }

    fn push_finish(&self, choice: &Json, chunk: &Json, reason: &str, out: &mut Vec<StreamItem>)
        ensures
            items_view(final(out)@) == items_view(old(out)@) + finish_items(
                self@,
                choice@,
                chunk@,
                reason@,
            ),
    {
        let ghost o = items_view(out@);
        if str_eq(reason, "tool_calls") {
            if self.message_added {
                let mut content: Vec<ContentItem> = Vec::new();
                content.push(ContentItem::OutputText { text: self.text.clone() });
                let msg = ResponseItem::Message { role: owned("assistant"), content };
                proof {
                    assert(msg@->Message_texts =~= seq![self@.text]);
                }
                push_item(out, StreamItem::Event(ResponseEvent::OutputItemDone(msg)));
            }
            proof {
                assert(items_view(out@) =~= o + closing_items(self@));
            }
            let ghost o = items_view(out@);
            let listed: Option<&Vec<Json>> = match choice.get("message") {
                Some(m) => match m.get("tool_calls") {
                    Some(Json::Array(a)) => {
                        proof {
                            lemma_array_view(*a);
                        }
                        if a.len() > 0 {
                            Some(a)
                        } else {
                            None
                        }
                    },
                    _ => None,
                },
                None => None,
            };
            match listed {
                Some(a) => {
                    let ghost lv = values_view(a@);
                    let mut i: usize = 0;
                    while i < a.len()
                        invariant
                            i <= a.len(),
                            lv == values_view(a@),
                            items_view(out@) == o + lv.take(i as int).map_values(
                                |tc: JValue| ev(ResponseEventV::OutputItemDone(listed_tool_call(tc))),
                            ),
                        decreases a.len() - i,
                    {
                        let tc = &a[i];
                        let name = match nested_str_exec(tc, "function", "name") {
                            Some(n) => n.clone(),
                            None => String::new(),
                        };
                        let arguments = match nested_str_exec(tc, "function", "arguments") {
                            Some(x) => x.clone(),
                            None => String::new(),
                        };
                        let call_id = str_member_or_empty(tc, "id");
                        push_item(
                            out,
                            StreamItem::Event(
                                ResponseEvent::OutputItemDone(
                                    ResponseItem::FunctionCall { name, arguments, call_id },
                                ),
                            ),
                        );
                        proof {
                            assert(lv.take(i + 1) =~= lv.take(i as int).push(lv[i as int]));
                            assert(lv.take(i + 1).map_values(
                                |tc: JValue| ev(ResponseEventV::OutputItemDone(listed_tool_call(tc))),
                            ) =~= lv.take(i as int).map_values(
                                |tc: JValue| ev(ResponseEventV::OutputItemDone(listed_tool_call(tc))),
                            ).push(ev(ResponseEventV::OutputItemDone(listed_tool_call(lv[i as int])))));
                        }
                        i += 1;
                    }
                    proof {
                        assert(lv.take(i as int) =~= lv);
                    }
                },
                None => {
                    let ghost calls = self@.tool_calls;
                    let mut i: usize = 0;
                    while i < self.tool_calls.len()
                        invariant
                            i <= self.tool_calls@.len(),
                            calls == self@.tool_calls,
                            items_view(out@) == o + calls.take(i as int).map_values(
                                |t: ToolCallV| ev(ResponseEventV::OutputItemDone(streamed_tool_call(t))),
                            ),
                        decreases self.tool_calls@.len() - i,
                    {
                        let t = &self.tool_calls[i];
                        push_item(
                            out,
                            StreamItem::Event(
                                ResponseEvent::OutputItemDone(
                                    ResponseItem::FunctionCall {
                                        name: t.name.clone(),
                                        arguments: t.arguments.clone(),
                                        call_id: t.id.clone(),
                                    },
                                ),
                            ),
                        );
                        proof {
                            assert(calls[i as int] == self.tool_calls@[i as int]@);
                            assert(calls.take(i + 1) =~= calls.take(i as int).push(calls[i as int]));
                            assert(calls.take(i + 1).map_values(
                                |t: ToolCallV| ev(ResponseEventV::OutputItemDone(streamed_tool_call(t))),
                            ) =~= calls.take(i as int).map_values(
                                |t: ToolCallV| ev(ResponseEventV::OutputItemDone(streamed_tool_call(t))),
                            ).push(ev(ResponseEventV::OutputItemDone(streamed_tool_call(calls[i as int])))));
                        }
                        i += 1;
                    }
                    proof {
                        assert(calls.take(i as int) =~= calls);
                    }
                },
            }
        } else {
            if !self.message_added {
                push_item(out, StreamItem::Event(ResponseEvent::OutputItemAdded(assistant_placeholder_exec())));
            }
            let mut content: Vec<ContentItem> = Vec::new();
            content.push(ContentItem::OutputText { text: self.text.clone() });
            let msg = ResponseItem::Message { role: owned("assistant"), content };
            proof {
                assert(msg@->Message_texts =~= seq![self@.text]);
            }
            push_item(out, StreamItem::Event(ResponseEvent::OutputItemDone(msg)));
        }
        let ghost before = items_view(out@);
        let usage = ChatStreamState::usage(chunk);
        push_item(out, self.completed_item(usage));
        proof {
            assert(items_view(out@) =~= o + finish_items(self@, choice@, chunk@, reason@));
        }
    }

    fn apply_chunk(&mut self, chunk: &Json, out: &mut Vec<StreamItem>)
        ensures
            final(self)@ == chunk_applied(old(self)@, chunk@).0,
            items_view(final(out)@) == items_view(old(out)@) + chunk_applied(old(self)@, chunk@).1,
    {
        let ghost o = items_view(out@);
        match chunk.get_str("id") {
            Some(id) => {
                self.response_id = Some(id.clone());
            },
            None => {},
        }
        let choice: Option<&Json> = match chunk.get("choices") {
            Some(Json::Array(a)) => {
                proof {
                    lemma_array_view(*a);
                }
                if a.len() > 0 {
                    Some(&a[0])
                } else {
                    None
                }
            },
            _ => None,
        };
        match choice {
            None => {
                proof {
                    assert(items_view(out@) + Seq::<StreamItemV>::empty() =~= items_view(out@));
                }
            },
            Some(choice) => {
                match choice.get("delta") {
                    Some(d) => {
                        self.apply_delta(d, out);
                    },
                    None => {
                        proof {
                            assert(items_view(out@) + Seq::<StreamItemV>::empty() =~= items_view(out@));
                        }
                    },
                }
                let ghost mid = items_view(out@);
                match choice.get_str("finish_reason") {
                    Some(reason) => {
                        self.push_finish(choice, chunk, reason.as_str(), out);
                        self.done = true;
                        proof {
                            let s1 = match chunk@.get_str("id"@) {
                                Some(id) => StreamStateV { response_id: Some(id), ..old(self)@ },
                                None => old(self)@,
                            };
                            let (s2, e1) = match choice@.get("delta"@) {
                                Some(d) => delta_applied(s1, d),
                                None => (s1, Seq::empty()),
                            };
                            assert(mid =~= o + e1);
                            assert(items_view(out@) =~= o + (e1 + finish_items(s2, choice@, chunk@, reason@)));
                        }
                    },
                    None => {},
                }
            },
        }
    }

    /// Apply the data of an event as the JSON parser read it: a parsed chunk
    /// is applied, and `None` (data that is not JSON) changes nothing.
    pub fn apply_parsed(&mut self, parsed: Option<Json>) -> (out: Vec<StreamItem>)
        ensures
            (final(self)@, items_view(out@)) == parsed_applied(old(self)@, opt_json_view(parsed)),
    {
        let mut out: Vec<StreamItem> = Vec::new();
        proof {
            assert(items_view(out@) =~= Seq::<StreamItemV>::empty());
        }
        match parsed {
            Some(chunk) => {
                self.apply_chunk(&chunk, &mut out);
                proof {
                    assert(Seq::<StreamItemV>::empty() + chunk_applied(old(self)@, chunk@).1
                        =~= chunk_applied(old(self)@, chunk@).1);
                }
            },
            None => {},
        }
        out
    }

    /// Feed one input.  Gives back the items to pass on, in order.
    pub fn step(&mut self, input: StreamInput) -> (out: Vec<StreamItem>)
        ensures
            (final(self)@, items_view(out@)) == stream_step(old(self)@, input@),
    {
        let mut out: Vec<StreamItem> = Vec::new();
        proof {
            assert(items_view(out@) =~= Seq::<StreamItemV>::empty());
        }
        match input {
            StreamInput::Data { data } => {
                let text = trim(data.as_str());
                if str_eq(text, "[DONE]") {
                    let item = self.completed_item(None);
                    push_item(&mut out, item);
                    self.done = true;
                } else {
                    out = self.apply_parsed(parse_json(text));
                }
            },
            StreamInput::Failure(msg) => {
                let mut m = owned("SSE error: ");
                m.append(msg.as_str());
                push_item(&mut out, StreamItem::Error(m));
                self.done = true;
            },
            StreamInput::Closed => {
                push_item(&mut out, StreamItem::Error(owned("stream closed before response.completed")));
                self.done = true;
            },
            StreamInput::IdleTimeout => {
                push_item(&mut out, StreamItem::Error(owned("idle timeout waiting for SSE")));
                self.done = true;
            },
        }
        out
    }
}

// ---------------------------------------------------------------------------
// Laws
// ---------------------------------------------------------------------------

/// The message text carried by the `OutputTextDelta` events of a list of items.
pub open spec fn streamed_text(items: Seq<StreamItemV>) -> Seq<char>
    decreases items.len(),
{
    if items.len() == 0 {
        Seq::empty()
    } else {
        streamed_text(items.drop_last()) + match items.last() {
            StreamItemV::Event(ResponseEventV::OutputTextDelta(t)) => t,
            _ => Seq::empty(),
        }
    }
}

/// An item that ends a stream: the completion, or an error.
pub open spec fn is_terminal(item: StreamItemV) -> bool {
    match item {
        StreamItemV::Event(ResponseEventV::Completed { .. }) => true,
        StreamItemV::Error(_) => true,
        _ => false,
    }
}

/// An item that passes on message text.
pub open spec fn is_text_delta(item: StreamItemV) -> bool {
    item matches StreamItemV::Event(ResponseEventV::OutputTextDelta(_))
}

/// Items that are neither message text nor the end of the stream.
pub open spec fn plain_items(items: Seq<StreamItemV>) -> bool {
    forall|i: int|
        0 <= i < items.len() ==> !is_text_delta(#[trigger] items[i]) && !is_terminal(items[i])
}

/// An item that finishes the assistant message.
pub open spec fn is_done_message(item: StreamItemV) -> bool {
    item matches StreamItemV::Event(ResponseEventV::OutputItemDone(ResponseItemV::Message { .. }))
}

/// Items none of which finishes the assistant message.
pub open spec fn no_done_message(items: Seq<StreamItemV>) -> bool {
    forall|i: int| 0 <= i < items.len() ==> !is_done_message(#[trigger] items[i])
}

/// The finished assistant message that carries `text`.
pub open spec fn done_message(text: Seq<char>) -> StreamItemV {
    ev(ResponseEventV::OutputItemDone(ResponseItemV::Message { role: "assistant"@, texts: seq![text] }))
}

/// The stream as the reading loop drives it: inputs are fed one by one until
/// the state is done; later inputs are not fed.
pub open spec fn driven(s: StreamStateV, inputs: Seq<StreamInputV>) -> (StreamStateV, Seq<StreamItemV>)
    decreases inputs.len(),
{
    if inputs.len() == 0 {
        (s, Seq::empty())
    } else {
        let (s1, o1) = driven(s, inputs.drop_last());
        if s1.done {
            (s1, o1)
        } else {
            let (s2, o2) = stream_step(s1, inputs.last());
            (s2, o1 + o2)
        }
    }
}

/// The tool calls are ordered by strictly increasing index, and each has been
/// announced.
pub open spec fn tool_calls_in_order(calls: Seq<ToolCallV>) -> bool {
    &&& forall|i: int, j: int| 0 <= i < j < calls.len() ==> calls[i].index < calls[j].index
    &&& forall|i: int| 0 <= i < calls.len() ==> (#[trigger] calls[i]).announced
}

pub proof fn lemma_streamed_text_append(a: Seq<StreamItemV>, b: Seq<StreamItemV>)
    ensures
        streamed_text(a + b) == streamed_text(a) + streamed_text(b),
    decreases b.len(),
{
    if b.len() == 0 {
        assert(a + b =~= a);
        assert(streamed_text(a) + Seq::<char>::empty() =~= streamed_text(a));
    } else {
        assert((a + b).drop_last() =~= a + b.drop_last());
        lemma_streamed_text_append(a, b.drop_last());
        assert((a + b).last() == b.last());
        assert(streamed_text(a) + streamed_text(b.drop_last()) + match b.last() {
            StreamItemV::Event(ResponseEventV::OutputTextDelta(t)) => t,
            _ => Seq::empty(),
        } =~= streamed_text(a) + (streamed_text(b.drop_last()) + match b.last() {
            StreamItemV::Event(ResponseEventV::OutputTextDelta(t)) => t,
            _ => Seq::empty(),
        }));
    }
}

pub proof fn lemma_plain_items(items: Seq<StreamItemV>)
    requires
        plain_items(items),
    ensures
        streamed_text(items) == Seq::<char>::empty(),
    decreases items.len(),
{
    if items.len() > 0 {
        assert(plain_items(items.drop_last())) by {
            assert forall|i: int| 0 <= i < items.drop_last().len() implies !is_text_delta(
                #[trigger] items.drop_last()[i],
            ) && !is_terminal(items.drop_last()[i]) by {
                assert(items.drop_last()[i] == items[i]);
            }
        }
        lemma_plain_items(items.drop_last());
        assert(!is_text_delta(items[items.len() - 1]));
    }
}

pub proof fn lemma_plain_append(a: Seq<StreamItemV>, b: Seq<StreamItemV>)
    requires
        plain_items(a),
        plain_items(b),
    ensures
        plain_items(a + b),
{
    assert forall|i: int| 0 <= i < (a + b).len() implies !is_text_delta(#[trigger] (a + b)[i])
        && !is_terminal((a + b)[i]) by {
        if i < a.len() {
            assert((a + b)[i] == a[i]);
        } else {
            assert((a + b)[i] == b[i - a.len()]);
        }
    }
}

/// A tool call delta changes no text and emits only plain items.
pub proof fn lemma_tool_delta(s: StreamStateV, tc: JValue)
    ensures
        tool_delta(s, tc).0.text == s.text,
        tool_delta(s, tc).0.done == s.done,
        tool_delta(s, tc).0.message_added == s.message_added,
        plain_items(tool_delta(s, tc).1),
        no_done_message(tool_delta(s, tc).1),
{
}

pub proof fn lemma_no_done_message_append(a: Seq<StreamItemV>, b: Seq<StreamItemV>)
    requires
        no_done_message(a),
        no_done_message(b),
    ensures
        no_done_message(a + b),
{
    assert forall|i: int| 0 <= i < (a + b).len() implies !is_done_message(#[trigger] (a + b)[i]) by {
        if i < a.len() {
            assert((a + b)[i] == a[i]);
        } else {
            assert((a + b)[i] == b[i - a.len()]);
        }
    }
}

pub proof fn lemma_tool_deltas(s: StreamStateV, tcs: Seq<JValue>)
    ensures
        tool_deltas(s, tcs).0.text == s.text,
        tool_deltas(s, tcs).0.done == s.done,
        tool_deltas(s, tcs).0.message_added == s.message_added,
        plain_items(tool_deltas(s, tcs).1),
        no_done_message(tool_deltas(s, tcs).1),
    decreases tcs.len(),
{
    if tcs.len() > 0 {
        lemma_tool_deltas(s, tcs.drop_last());
        let (s1, e1) = tool_deltas(s, tcs.drop_last());
        lemma_tool_delta(s1, tcs.last());
        lemma_plain_append(e1, tool_delta(s1, tcs.last()).1);
        lemma_no_done_message_append(e1, tool_delta(s1, tcs.last()).1);
    }
}

/// A delta adds its content to the text and passes exactly that content on as
/// text; it never ends the stream.
pub proof fn lemma_delta_applied(s: StreamStateV, delta: JValue)
    ensures
        delta_applied(s, delta).0.text == s.text + streamed_text(delta_applied(s, delta).1),
        delta_applied(s, delta).0.done == s.done,
        forall|i: int|
            0 <= i < delta_applied(s, delta).1.len() ==> !is_terminal(
                #[trigger] delta_applied(s, delta).1[i],
            ),
        no_done_message(delta_applied(s, delta).1),
{
    let (s1, e1) = content_delta(s, delta);
    let (s2, e2) = reasoning_delta(s1, delta);
    let (s3, e3) = match delta.get("tool_calls"@) {
        Some(JValue::Array(a)) => tool_deltas(s2, a),
        _ => (s2, Seq::empty()),
    };
    match delta.get("tool_calls"@) {
        Some(JValue::Array(a)) => lemma_tool_deltas(s2, a),
        _ => {},
    }
    assert(plain_items(e2));
    assert(plain_items(e3));
    lemma_plain_items(e2);
    lemma_plain_items(e3);
    lemma_streamed_text_append(e1, e2);
    lemma_streamed_text_append(e1 + e2, e3);
    match delta.get_str("content"@) {
        Some(c) => if c.len() > 0 {
            let (sa, ea) = with_message_added(s);
            assert(plain_items(ea));
            lemma_plain_items(ea);
            let t = ev(ResponseEventV::OutputTextDelta(c));
            assert(ea.push(t).drop_last() =~= ea);
            assert(streamed_text(e1) == streamed_text(ea) + c);
            assert(streamed_text(e1) =~= c);
        } else {
            assert(streamed_text(e1) =~= Seq::<char>::empty());
        },
        None => {
            assert(streamed_text(e1) =~= Seq::<char>::empty());
        },
    }
    assert(s3.text =~= s.text + streamed_text(e1 + e2 + e3));
    assert(no_done_message(e1));
    assert(no_done_message(e2));
    lemma_no_done_message_append(e1, e2);
    lemma_no_done_message_append(e1 + e2, e3);
    let all = e1 + e2 + e3;
    assert forall|i: int| 0 <= i < all.len() implies !is_terminal(#[trigger] all[i]) by {
        if i < e1.len() {
            assert(all[i] == (e1 + e2)[i]);
            assert((e1 + e2)[i] == e1[i]);
        } else if i < e1.len() + e2.len() {
            assert(all[i] == (e1 + e2)[i]);
            assert((e1 + e2)[i] == e2[i - e1.len()]);
        } else {
            assert(all[i] == e3[i - e1.len() - e2.len()]);
        }
    }
}

/// The closing items of a finished choice pass on no text; only the last one
/// ends the stream.
pub proof fn lemma_finish_items(s: StreamStateV, choice: JValue, chunk: JValue, reason: Seq<char>)
    ensures
        finish_items(s, choice, chunk, reason).len() > 0,
        streamed_text(finish_items(s, choice, chunk, reason)) == Seq::<char>::empty(),
        is_terminal(finish_items(s, choice, chunk, reason).last()),
        forall|i: int|
            0 <= i < finish_items(s, choice, chunk, reason).len() - 1 ==> !is_terminal(
                #[trigger] finish_items(s, choice, chunk, reason)[i],
            ),
{
    let items = if reason == "tool_calls"@ {
        let listed = message_tool_calls(choice);
        closing_items(s) + if listed.len() > 0 {
            listed.map_values(|tc: JValue| ev(ResponseEventV::OutputItemDone(listed_tool_call(tc))))
        } else {
            s.tool_calls.map_values(
                |t: ToolCallV| ev(ResponseEventV::OutputItemDone(streamed_tool_call(t))),
            )
        }
    } else {
        (if s.message_added {
            Seq::empty()
        } else {
            seq![ev(ResponseEventV::OutputItemAdded(assistant_placeholder()))]
        }).push(
            ev(
                ResponseEventV::OutputItemDone(
                    ResponseItemV::Message { role: "assistant"@, texts: seq![s.text] },
                ),
            ),
        )
    };
    assert(plain_items(items));
    lemma_plain_items(items);
    let all = items.push(completed(s, usage_of(chunk)));
    assert(all.drop_last() =~= items);
    assert(streamed_text(all) =~= streamed_text(items));
}

/// One step adds to the text exactly the text it passes on.
pub proof fn law_text_follows_text_deltas(s: StreamStateV, input: StreamInputV)
    ensures
        stream_step(s, input).0.text == s.text + streamed_text(stream_step(s, input).1),
{
    match input {
        StreamInputV::Data { data } => {
            let parsed = parsed_json(trimmed(data));
            if trimmed(data) == "[DONE]"@ {
                let out = seq![completed(s, None)];
                assert(out.drop_last() =~= Seq::<StreamItemV>::empty());
                assert(streamed_text(out.drop_last()) == Seq::<char>::empty());
                assert(streamed_text(out) =~= Seq::<char>::empty());
                assert(s.text + Seq::<char>::empty() =~= s.text);
            } else {
                match parsed {
                    Some(chunk) => {
                        let s1 = match chunk.get_str("id"@) {
                            Some(id) => StreamStateV { response_id: Some(id), ..s },
                            None => s,
                        };
                        match first_choice(chunk) {
                            None => {
                                assert(streamed_text(Seq::<StreamItemV>::empty()) =~= Seq::<char>::empty());
                                assert(s.text + Seq::<char>::empty() =~= s.text);
                            },
                            Some(choice) => {
                                let (s2, e1) = match choice.get("delta"@) {
                                    Some(d) => delta_applied(s1, d),
                                    None => (s1, Seq::empty()),
                                };
                                match choice.get("delta"@) {
                                    Some(d) => lemma_delta_applied(s1, d),
                                    None => {
                                        assert(streamed_text(Seq::<StreamItemV>::empty()) =~= Seq::<char>::empty());
                                        assert(s1.text + Seq::<char>::empty() =~= s1.text);
                                    },
                                }
                                match choice.get_str("finish_reason"@) {
                                    Some(reason) => {
                                        lemma_finish_items(s2, choice, chunk, reason);
                                        lemma_streamed_text_append(
                                            e1,
                                            finish_items(s2, choice, chunk, reason),
                                        );
                                        assert(streamed_text(e1) + Seq::<char>::empty()
                                            =~= streamed_text(e1));
                                    },
                                    None => {},
                                }
                            },
                        }
                    },
                    None => {
                        assert(streamed_text(Seq::<StreamItemV>::empty()) =~= Seq::<char>::empty());
                        assert(s.text + Seq::<char>::empty() =~= s.text);
                    },
                }
            }
        },
        _ => {
            let out = stream_step(s, input).1;
            assert(streamed_text(out.drop_last()) == Seq::<char>::empty());
            assert(out.drop_last() =~= Seq::<StreamItemV>::empty());
            assert(s.text + Seq::<char>::empty() =~= s.text);
        },
    }
}

/// One step never takes back the end of the stream; a step that ends it
/// passes on the ending item last, and only there; a step that does not end it
/// passes on no ending item.
pub proof fn law_step_ends_once(s: StreamStateV, input: StreamInputV)
    ensures
        s.done ==> stream_step(s, input).0.done,
        forall|i: int|
            0 <= i < stream_step(s, input).1.len() && is_terminal(
                #[trigger] stream_step(s, input).1[i],
            ) ==> i == stream_step(s, input).1.len() - 1 && stream_step(s, input).0.done,
        !s.done && stream_step(s, input).0.done ==> stream_step(s, input).1.len() > 0
            && is_terminal(stream_step(s, input).1.last()),
{
    match input {
        StreamInputV::Data { data } => {
            let parsed = parsed_json(trimmed(data));
            if trimmed(data) == "[DONE]"@ {
            } else {
                match parsed {
                    Some(chunk) => {
                        let s1 = match chunk.get_str("id"@) {
                            Some(id) => StreamStateV { response_id: Some(id), ..s },
                            None => s,
                        };
                        match first_choice(chunk) {
                            None => {},
                            Some(choice) => {
                                let (s2, e1) = match choice.get("delta"@) {
                                    Some(d) => delta_applied(s1, d),
                                    None => (s1, Seq::empty()),
                                };
                                match choice.get("delta"@) {
                                    Some(d) => lemma_delta_applied(s1, d),
                                    None => {},
                                }
                                match choice.get_str("finish_reason"@) {
                                    Some(reason) => {
                                        let f = finish_items(s2, choice, chunk, reason);
                                        lemma_finish_items(s2, choice, chunk, reason);
                                        let out = e1 + f;
                                        assert(out.last() == f.last());
                                        assert forall|i: int|
                                            0 <= i < out.len() && is_terminal(
                                                #[trigger] out[i],
                                            ) implies i == out.len() - 1 by {
                                            if i < e1.len() {
                                                assert(out[i] == e1[i]);
                                            } else {
                                                assert(out[i] == f[i - e1.len()]);
                                            }
                                        }
                                    },
                                    None => {},
                                }
                            },
                        }
                    },
                    None => {},
                }
            }
        },
        _ => {},
    }
}

/// Driving the stream from its start: the state's text is all the text passed
/// on; at most one item ends the stream, and it is the last item; the stream
/// is done exactly when such an item was passed on.
pub proof fn law_driven_stream(inputs: Seq<StreamInputV>)
    ensures
        driven(initial_state(), inputs).0.text == streamed_text(driven(initial_state(), inputs).1),
        forall|i: int|
            0 <= i < driven(initial_state(), inputs).1.len() && is_terminal(
                #[trigger] driven(initial_state(), inputs).1[i],
            ) ==> i == driven(initial_state(), inputs).1.len() - 1,
        driven(initial_state(), inputs).0.done <==> (driven(initial_state(), inputs).1.len() > 0
            && is_terminal(driven(initial_state(), inputs).1.last())),
    decreases inputs.len(),
{
    if inputs.len() > 0 {
        law_driven_stream(inputs.drop_last());
        let (s1, o1) = driven(initial_state(), inputs.drop_last());
        if !s1.done {
            let (s2, o2) = stream_step(s1, inputs.last());
            law_text_follows_text_deltas(s1, inputs.last());
            law_step_ends_once(s1, inputs.last());
            lemma_streamed_text_append(o1, o2);
            let all = o1 + o2;
            assert forall|i: int| 0 <= i < all.len() && is_terminal(#[trigger] all[i]) implies i
                == all.len() - 1 by {
                if i < o1.len() {
                    assert(all[i] == o1[i]);
                    assert(!is_terminal(o1[i]));
                } else {
                    assert(all[i] == o2[i - o1.len()]);
                }
            }
            if o2.len() > 0 {
                assert(all.last() == o2.last());
            } else {
                assert(all =~= o1);
            }
        }
    } else {
        assert(streamed_text(Seq::<StreamItemV>::empty()) =~= Seq::<char>::empty());
    }
}

pub proof fn lemma_tool_upsert_in_order(calls: Seq<ToolCallV>, t: ToolCallV)
    requires
        tool_calls_in_order(calls),
        t.announced,
    ensures
        tool_calls_in_order(tool_upsert(calls, t)),
        forall|i: int|
            0 <= i < tool_upsert(calls, t).len() ==> (#[trigger] tool_upsert(calls, t)[i]).index
                == t.index || exists|j: int|
                0 <= j < calls.len() && calls[j].index == tool_upsert(calls, t)[i].index,
    decreases calls.len(),
{
    if calls.len() > 0 {
        let d = calls.drop_last();
        assert(tool_calls_in_order(d)) by {
            assert forall|i: int, j: int| 0 <= i < j < d.len() implies d[i].index < d[j].index by {
                assert(d[i] == calls[i] && d[j] == calls[j]);
            }
            assert forall|i: int| 0 <= i < d.len() implies (#[trigger] d[i]).announced by {
                assert(d[i] == calls[i]);
            }
        }
        if calls.last().index == t.index {
        } else if calls.last().index < t.index {
        } else {
            lemma_tool_upsert_in_order(d, t);
            let u = tool_upsert(d, t);
            let r = u.push(calls.last());
            assert forall|i: int| 0 <= i < u.len() implies (#[trigger] u[i]).index < calls.last().index by {
                if u[i].index != t.index {
                    let j = choose|j: int| 0 <= j < d.len() && d[j].index == u[i].index;
                    assert(d[j] == calls[j]);
                    assert(calls[j].index < calls[calls.len() - 1].index);
                }
            }
            assert forall|i: int| 0 <= i < r.len() implies (#[trigger] r[i]).index == t.index
                || exists|j: int| 0 <= j < calls.len() && calls[j].index == r[i].index by {
                if i < u.len() {
                    assert(r[i] == u[i]);
                    if u[i].index != t.index {
                        let j = choose|j: int| 0 <= j < d.len() && d[j].index == u[i].index;
                        assert(d[j] == calls[j]);
                    }
                } else {
                    assert(r[i] == calls[calls.len() - 1]);
                }
            }
        }
    }
}

/// Streamed tool calls stay ordered by index, one entry per index, each one
/// announced: a step keeps this.
pub proof fn law_tool_calls_stay_in_order(s: StreamStateV, input: StreamInputV)
    requires
        tool_calls_in_order(s.tool_calls),
    ensures
        tool_calls_in_order(stream_step(s, input).0.tool_calls),
{
    match input {
        StreamInputV::Data { data } => {
            let parsed = parsed_json(trimmed(data));
            if trimmed(data) != "[DONE]"@ {
                match parsed {
                    Some(chunk) => {
                        let s1 = match chunk.get_str("id"@) {
                            Some(id) => StreamStateV { response_id: Some(id), ..s },
                            None => s,
                        };
                        match first_choice(chunk) {
                            Some(choice) => match choice.get("delta"@) {
                                Some(d) => lemma_delta_in_order(s1, d),
                                None => {},
                            },
                            None => {},
                        }
                    },
                    None => {},
                }
            }
        },
        _ => {},
    }
}

pub proof fn lemma_delta_in_order(s: StreamStateV, delta: JValue)
    requires
        tool_calls_in_order(s.tool_calls),
    ensures
        tool_calls_in_order(delta_applied(s, delta).0.tool_calls),
{
    let (s1, e1) = content_delta(s, delta);
    let (s2, e2) = reasoning_delta(s1, delta);
    match delta.get("tool_calls"@) {
        Some(JValue::Array(a)) => lemma_tool_deltas_in_order(s2, a),
        _ => {},
    }
}

pub proof fn lemma_tool_deltas_in_order(s: StreamStateV, tcs: Seq<JValue>)
    requires
        tool_calls_in_order(s.tool_calls),
    ensures
        tool_calls_in_order(tool_deltas(s, tcs).0.tool_calls),
    decreases tcs.len(),
{
    if tcs.len() > 0 {
        lemma_tool_deltas_in_order(s, tcs.drop_last());
        let (s1, e1) = tool_deltas(s, tcs.drop_last());
        let tc = tcs.last();
        match tc.get_i64("index"@) {
            None => {},
            Some(index) => {
                let prev = match tool_find(s1.tool_calls, index) {
                    Some(t) => t,
                    None => ToolCallV {
                        index,
                        id: Seq::empty(),
                        name: Seq::empty(),
                        arguments: Seq::empty(),
                        announced: false,
                    },
                };
                let id = match tc.get_str("id"@) {
                    Some(i) => i,
                    None => prev.id,
                };
                let name = match nested_str(tc, "function"@, "name"@) {
                    Some(n) => n,
                    None => prev.name,
                };
                let args = or_empty(nested_str(tc, "function"@, "arguments"@));
                let t = ToolCallV { index, id, name, arguments: prev.arguments + args, announced: true };
                lemma_tool_upsert_in_order(s1.tool_calls, t);
            },
        }
    }
}

/// An item that passes on message text or reasoning text.
pub open spec fn is_message_delta(item: StreamItemV) -> bool {
    match item {
        StreamItemV::Event(ResponseEventV::OutputTextDelta(_)) => true,
        StreamItemV::Event(ResponseEventV::ReasoningContentDelta { .. }) => true,
        _ => false,
    }
}

/// An item that announces the assistant message.
pub open spec fn is_message_announcement(item: StreamItemV) -> bool {
    item matches StreamItemV::Event(ResponseEventV::OutputItemAdded(ResponseItemV::Message { .. }))
}

/// Some item announces the assistant message.
pub open spec fn has_announcement(items: Seq<StreamItemV>) -> bool {
    exists|j: int| 0 <= j < items.len() && is_message_announcement(#[trigger] items[j])
}

/// Every message or reasoning delta comes after an announcement of the
/// message (or the message was announced before these items).
pub open spec fn announced_before_deltas(items: Seq<StreamItemV>, announced: bool) -> bool {
    forall|i: int|
        0 <= i < items.len() && is_message_delta(#[trigger] items[i]) ==> announced || exists|j: int|
            0 <= j < i && is_message_announcement(#[trigger] items[j])
}

/// A part of a step's output that keeps the announcement rule.
pub open spec fn announces(before: bool, after: bool, items: Seq<StreamItemV>) -> bool {
    &&& announced_before_deltas(items, before)
    &&& after ==> before || has_announcement(items)
}

pub proof fn lemma_announces_append(
    m0: bool,
    m1: bool,
    m2: bool,
    a: Seq<StreamItemV>,
    b: Seq<StreamItemV>,
)
    requires
        announces(m0, m1, a),
        announces(m1, m2, b),
    ensures
        announces(m0, m2, a + b),
{
    let ab = a + b;
    assert forall|i: int| 0 <= i < ab.len() && is_message_delta(#[trigger] ab[i]) implies m0
        || exists|j: int| 0 <= j < i && is_message_announcement(#[trigger] ab[j]) by {
        if i < a.len() {
            assert(ab[i] == a[i]);
            if !m0 {
                let j = choose|j: int| 0 <= j < i && is_message_announcement(#[trigger] a[j]);
                assert(ab[j] == a[j]);
            }
        } else {
            assert(ab[i] == b[i - a.len()]);
            if !m0 {
                if m1 {
                    let j = choose|j: int| 0 <= j < a.len() && is_message_announcement(#[trigger] a[j]);
                    assert(ab[j] == a[j]);
                } else {
                    let j = choose|j: int|
                        0 <= j < i - a.len() && is_message_announcement(#[trigger] b[j]);
                    assert(ab[j + a.len()] == b[j]);
                }
            }
        }
    }
    if m2 && !m0 {
        if m1 {
            let j = choose|j: int| 0 <= j < a.len() && is_message_announcement(#[trigger] a[j]);
            assert(ab[j] == a[j]);
        } else {
            let j = choose|j: int| 0 <= j < b.len() && is_message_announcement(#[trigger] b[j]);
            assert(ab[j + a.len()] == b[j]);
        }
    }
}

pub proof fn lemma_announces_quiet(m: bool, items: Seq<StreamItemV>)
    requires
        forall|i: int| 0 <= i < items.len() ==> !is_message_delta(#[trigger] items[i]),
    ensures
        announces(m, m, items),
{
}

pub proof fn lemma_with_message_added_announces(s: StreamStateV, d: StreamItemV)
    ensures
        announces(s.message_added, true, with_message_added(s).1.push(d)),
        with_message_added(s).0.message_added,
{
    let e = with_message_added(s).1;
    let p = e.push(d);
    if !s.message_added {
        assert(is_message_announcement(p[0]));
        assert forall|i: int| 0 <= i < p.len() && is_message_delta(#[trigger] p[i]) implies exists|
            j: int,
        | 0 <= j < i && is_message_announcement(#[trigger] p[j]) by {
            assert(i == 1);
            assert(is_message_announcement(p[0]));
        }
    } else {
        assert(p =~= seq![d]);
    }
}

pub proof fn lemma_tool_deltas_quiet(s: StreamStateV, tcs: Seq<JValue>)
    ensures
        forall|i: int|
            0 <= i < tool_deltas(s, tcs).1.len() ==> !is_message_delta(
                #[trigger] tool_deltas(s, tcs).1[i],
            ),
    decreases tcs.len(),
{
    if tcs.len() > 0 {
        lemma_tool_deltas_quiet(s, tcs.drop_last());
        let (s1, e1) = tool_deltas(s, tcs.drop_last());
        let e2 = tool_delta(s1, tcs.last()).1;
        assert forall|i: int| 0 <= i < (e1 + e2).len() implies !is_message_delta(
            #[trigger] (e1 + e2)[i],
        ) by {
            if i < e1.len() {
                assert((e1 + e2)[i] == e1[i]);
            } else {
                assert((e1 + e2)[i] == e2[i - e1.len()]);
            }
        }
    }
}

pub proof fn lemma_delta_announces(s: StreamStateV, delta: JValue)
    ensures
        announces(s.message_added, delta_applied(s, delta).0.message_added, delta_applied(s, delta).1),
{
    let (s1, e1) = content_delta(s, delta);
    let (s2, e2) = reasoning_delta(s1, delta);
    let (s3, e3) = match delta.get("tool_calls"@) {
        Some(JValue::Array(a)) => tool_deltas(s2, a),
        _ => (s2, Seq::empty()),
    };
    match delta.get_str("content"@) {
        Some(c) => if c.len() > 0 {
            lemma_with_message_added_announces(s, ev(ResponseEventV::OutputTextDelta(c)));
        } else {
            lemma_announces_quiet(s.message_added, e1);
        },
        None => lemma_announces_quiet(s.message_added, e1),
    }
    match delta.get_str("reasoning_content"@) {
        Some(r) => if r.len() > 0 {
            lemma_with_message_added_announces(
                s1,
                ev(ResponseEventV::ReasoningContentDelta { delta: r, content_index: 0 }),
            );
        } else {
            lemma_announces_quiet(s1.message_added, e2);
        },
        None => lemma_announces_quiet(s1.message_added, e2),
    }
    match delta.get("tool_calls"@) {
        Some(JValue::Array(a)) => {
            lemma_tool_deltas_quiet(s2, a);
            lemma_tool_deltas(s2, a);
        },
        _ => {},
    }
    lemma_announces_quiet(s2.message_added, e3);
    lemma_announces_append(s.message_added, s1.message_added, s2.message_added, e1, e2);
    lemma_announces_append(s.message_added, s2.message_added, s3.message_added, e1 + e2, e3);
}

/// The closing items of a choice carry no message or reasoning delta.
proof fn lemma_finish_quiet(s: StreamStateV, choice: JValue, chunk: JValue, reason: Seq<char>)
    ensures
        forall|i: int|
            0 <= i < finish_items(s, choice, chunk, reason).len() ==> !is_message_delta(
                #[trigger] finish_items(s, choice, chunk, reason)[i],
            ),
{
    let f = finish_items(s, choice, chunk, reason);
    let c = completed(s, usage_of(chunk));
    if reason == "tool_calls"@ {
        let listed = message_tool_calls(choice);
        let cl = closing_items(s);
        let m = if listed.len() > 0 {
            listed.map_values(|tc: JValue| ev(ResponseEventV::OutputItemDone(listed_tool_call(tc))))
        } else {
            s.tool_calls.map_values(
                |t: ToolCallV| ev(ResponseEventV::OutputItemDone(streamed_tool_call(t))),
            )
        };
        assert(f =~= cl + m + seq![c]);
        assert forall|i: int| 0 <= i < f.len() implies !is_message_delta(#[trigger] f[i]) by {
            if i < cl.len() {
                assert(f[i] == cl[i]);
            } else if i < cl.len() + m.len() {
                assert(f[i] == m[i - cl.len()]);
            } else {
                assert(f[i] == c);
            }
        }
    } else {
        let pre: Seq<StreamItemV> = if s.message_added {
            Seq::empty()
        } else {
            seq![ev(ResponseEventV::OutputItemAdded(assistant_placeholder()))]
        };
        assert(f == pre.push(done_message(s.text)).push(c));
        assert forall|i: int| 0 <= i < f.len() implies !is_message_delta(#[trigger] f[i]) by {
            if i < pre.len() {
                assert(f[i] == pre[i]);
            }
        }
    }
}

pub proof fn lemma_step_announces(s: StreamStateV, input: StreamInputV)
    ensures
        announces(s.message_added, stream_step(s, input).0.message_added, stream_step(s, input).1),
{
    match input {
        StreamInputV::Data { data } => {
            let parsed = parsed_json(trimmed(data));
            if trimmed(data) == "[DONE]"@ {
                lemma_announces_quiet(s.message_added, seq![completed(s, None)]);
            } else {
                match parsed {
                    Some(chunk) => {
                        let s1 = match chunk.get_str("id"@) {
                            Some(id) => StreamStateV { response_id: Some(id), ..s },
                            None => s,
                        };
                        match first_choice(chunk) {
                            None => lemma_announces_quiet(s.message_added, Seq::empty()),
                            Some(choice) => {
                                let (s2, e1) = match choice.get("delta"@) {
                                    Some(d) => delta_applied(s1, d),
                                    None => (s1, Seq::empty()),
                                };
                                match choice.get("delta"@) {
                                    Some(d) => lemma_delta_announces(s1, d),
                                    None => lemma_announces_quiet(s1.message_added, e1),
                                }
                                match choice.get_str("finish_reason"@) {
                                    Some(reason) => {
                                        let f = finish_items(s2, choice, chunk, reason);
                                        lemma_finish_items(s2, choice, chunk, reason);
                                        lemma_finish_quiet(s2, choice, chunk, reason);
                                        lemma_announces_quiet(s2.message_added, f);
                                        lemma_announces_append(
                                            s.message_added,
                                            s2.message_added,
                                            s2.message_added,
                                            e1,
                                            f,
                                        );
                                    },
                                    None => {},
                                }
                            },
                        }
                    },
                    None => lemma_announces_quiet(s.message_added, Seq::empty()),
                }
            }
        },
        _ => {
            lemma_announces_quiet(s.message_added, stream_step(s, input).1);
        },
    }
}

/// Driving the stream from its start, every message or reasoning delta comes
/// after the announcement of the assistant message.
pub proof fn law_message_announced_before_deltas(inputs: Seq<StreamInputV>)
    ensures
        announced_before_deltas(driven(initial_state(), inputs).1, false),
        driven(initial_state(), inputs).0.message_added ==> has_announcement(
            driven(initial_state(), inputs).1,
        ),
    decreases inputs.len(),
{
    if inputs.len() > 0 {
        law_message_announced_before_deltas(inputs.drop_last());
        let (s1, o1) = driven(initial_state(), inputs.drop_last());
        if !s1.done {
            lemma_step_announces(s1, inputs.last());
            let (s2, o2) = stream_step(s1, inputs.last());
            lemma_announces_append(false, s1.message_added, s2.message_added, o1, o2);
        }
    }
}


/// The message text a step's own items pass on before position `j`.
proof fn lemma_streamed_text_take_append(a: Seq<StreamItemV>, b: Seq<StreamItemV>, j: int)
    requires
        a.len() <= j <= a.len() + b.len(),
    ensures
        streamed_text((a + b).take(j)) == streamed_text(a) + streamed_text(b.take(j - a.len())),
{
    assert((a + b).take(j) =~= a + b.take(j - a.len()));
    lemma_streamed_text_append(a, b.take(j - a.len()));
}

/// The closing items of a choice finish the message with the state's text,
/// after items that pass on no text.
proof fn lemma_finish_done_message(s: StreamStateV, choice: JValue, chunk: JValue, reason: Seq<char>)
    ensures
        forall|j: int|
            0 <= j < finish_items(s, choice, chunk, reason).len() && is_done_message(
                #[trigger] finish_items(s, choice, chunk, reason)[j],
            ) ==> finish_items(s, choice, chunk, reason)[j] == done_message(s.text) && streamed_text(
                finish_items(s, choice, chunk, reason).take(j),
            ) == Seq::<char>::empty(),
{
    let f = finish_items(s, choice, chunk, reason);
    assert forall|j: int| 0 <= j < f.len() && is_done_message(#[trigger] f[j]) implies f[j]
        == done_message(s.text) && streamed_text(f.take(j)) == Seq::<char>::empty() by {
        let listed = message_tool_calls(choice);
        if reason == "tool_calls"@ {
            let cl = closing_items(s);
            let m = if listed.len() > 0 {
                listed.map_values(|tc: JValue| ev(ResponseEventV::OutputItemDone(listed_tool_call(tc))))
            } else {
                s.tool_calls.map_values(
                    |t: ToolCallV| ev(ResponseEventV::OutputItemDone(streamed_tool_call(t))),
                )
            };
            assert(f == (cl + m).push(completed(s, usage_of(chunk))));
            if j < cl.len() {
                assert(f[j] == cl[j]);
                assert(f.take(j) =~= Seq::<StreamItemV>::empty());
                assert(streamed_text(Seq::<StreamItemV>::empty()) == Seq::<char>::empty());
            } else if j < cl.len() + m.len() {
                assert(f[j] == (cl + m)[j]);
                assert((cl + m)[j] == m[j - cl.len()]);
            }
        } else {
            let pre: Seq<StreamItemV> = if s.message_added {
                Seq::empty()
            } else {
                seq![ev(ResponseEventV::OutputItemAdded(assistant_placeholder()))]
            };
            assert(f == pre.push(done_message(s.text)).push(completed(s, usage_of(chunk))));
            assert(j == pre.len());
            assert(f.take(j) =~= pre);
            assert(plain_items(pre));
            lemma_plain_items(pre);
        }
    }
}

/// In one step, the message is finished with the text the state held plus the
/// text the step passed on before it.
pub proof fn lemma_step_done_message(s: StreamStateV, input: StreamInputV)
    ensures
        forall|j: int|
            0 <= j < stream_step(s, input).1.len() && is_done_message(
                #[trigger] stream_step(s, input).1[j],
            ) ==> stream_step(s, input).1[j] == done_message(
                s.text + streamed_text(stream_step(s, input).1.take(j)),
            ),
{
    let out = stream_step(s, input).1;
    match input {
        StreamInputV::Data { data } => {
            let parsed = parsed_json(trimmed(data));
            if trimmed(data) != "[DONE]"@ {
                match parsed {
                    Some(chunk) => {
                        let s1 = match chunk.get_str("id"@) {
                            Some(id) => StreamStateV { response_id: Some(id), ..s },
                            None => s,
                        };
                        match first_choice(chunk) {
                            None => {},
                            Some(choice) => {
                                let (s2, e1) = match choice.get("delta"@) {
                                    Some(d) => delta_applied(s1, d),
                                    None => (s1, Seq::empty()),
                                };
                                match choice.get("delta"@) {
                                    Some(d) => lemma_delta_applied(s1, d),
                                    None => {
                                        assert(streamed_text(Seq::<StreamItemV>::empty())
                                            =~= Seq::<char>::empty());
                                        assert(s1.text + Seq::<char>::empty() =~= s1.text);
                                    },
                                }
                                assert(no_done_message(e1));
                                match choice.get_str("finish_reason"@) {
                                    Some(reason) => {
                                        let f = finish_items(s2, choice, chunk, reason);
                                        lemma_finish_done_message(s2, choice, chunk, reason);
                                        assert(out == e1 + f);
                                        assert forall|j: int|
                                            0 <= j < out.len() && is_done_message(
                                                #[trigger] out[j],
                                            ) implies out[j] == done_message(
                                            s.text + streamed_text(out.take(j)),
                                        ) by {
                                            if j < e1.len() {
                                                assert(out[j] == e1[j]);
                                            } else {
                                                let k = j - e1.len();
                                                assert(out[j] == f[k]);
                                                lemma_streamed_text_take_append(e1, f, j);
                                                assert(streamed_text(f.take(k)) == Seq::<char>::empty());
                                                assert(streamed_text(e1) + Seq::<char>::empty()
                                                    =~= streamed_text(e1));
                                            }
                                        }
                                    },
                                    None => {},
                                }
                            },
                        }
                    },
                    None => {},
                }
            }
        },
        _ => {},
    }
}

/// Driving the stream from its start, the assistant message is finished with
/// exactly the text of all the text deltas passed on before it.
pub proof fn law_done_message_holds_the_streamed_text(inputs: Seq<StreamInputV>)
    ensures
        forall|i: int|
            0 <= i < driven(initial_state(), inputs).1.len() && is_done_message(
                #[trigger] driven(initial_state(), inputs).1[i],
            ) ==> driven(initial_state(), inputs).1[i] == done_message(
                streamed_text(driven(initial_state(), inputs).1.take(i)),
            ),
    decreases inputs.len(),
{
    if inputs.len() > 0 {
        law_done_message_holds_the_streamed_text(inputs.drop_last());
        law_driven_stream(inputs.drop_last());
        let (s1, o1) = driven(initial_state(), inputs.drop_last());
        if !s1.done {
            let (s2, o2) = stream_step(s1, inputs.last());
            lemma_step_done_message(s1, inputs.last());
            let all = o1 + o2;
            assert forall|i: int| 0 <= i < all.len() && is_done_message(#[trigger] all[i]) implies all[i]
                == done_message(streamed_text(all.take(i))) by {
                if i < o1.len() {
                    assert(all[i] == o1[i]);
                    assert(all.take(i) =~= o1.take(i));
                } else {
                    assert(all[i] == o2[i - o1.len()]);
                    lemma_streamed_text_take_append(o1, o2, i);
                }
            }
        }
    }
}


/// How many items announce the assistant message.
pub open spec fn announcement_count(items: Seq<StreamItemV>) -> nat
    decreases items.len(),
{
    if items.len() == 0 {
        0
    } else {
        announcement_count(items.drop_last()) + if is_message_announcement(items.last()) {
            1nat
        } else {
            0nat
        }
    }
}

/// How many items finish the assistant message.
pub open spec fn done_message_count(items: Seq<StreamItemV>) -> nat
    decreases items.len(),
{
    if items.len() == 0 {
        0
    } else {
        done_message_count(items.drop_last()) + if is_done_message(items.last()) {
            1nat
        } else {
            0nat
        }
    }
}

proof fn lemma_counts_append(a: Seq<StreamItemV>, b: Seq<StreamItemV>)
    ensures
        announcement_count(a + b) == announcement_count(a) + announcement_count(b),
        done_message_count(a + b) == done_message_count(a) + done_message_count(b),
    decreases b.len(),
{
    if b.len() == 0 {
        assert(a + b =~= a);
    } else {
        assert((a + b).drop_last() =~= a + b.drop_last());
        assert((a + b).last() == b.last());
        lemma_counts_append(a, b.drop_last());
    }
}

proof fn lemma_counts_single(x: StreamItemV)
    ensures
        announcement_count(seq![x]) == if is_message_announcement(x) {
            1nat
        } else {
            0nat
        },
        done_message_count(seq![x]) == if is_done_message(x) {
            1nat
        } else {
            0nat
        },
{
    let one = seq![x];
    assert(one.drop_last() =~= Seq::<StreamItemV>::empty());
    assert(one.last() == x);
    assert(announcement_count(one.drop_last()) == 0);
    assert(done_message_count(one.drop_last()) == 0);
}

/// What the counts say about the items.
proof fn lemma_counts_meaning(items: Seq<StreamItemV>)
    ensures
        (forall|i: int| 0 <= i < items.len() ==> !is_message_announcement(#[trigger] items[i]))
            ==> announcement_count(items) == 0,
        no_done_message(items) <==> done_message_count(items) == 0,
        announcement_count(items) > 0 ==> has_announcement(items),
    decreases items.len(),
{
    if items.len() > 0 {
        let d = items.drop_last();
        lemma_counts_meaning(d);
        assert forall|i: int| 0 <= i < d.len() implies d[i] == items[i] by {}
        assert(items.last() == items[items.len() - 1]);
        if announcement_count(items) > 0 && !is_message_announcement(items.last()) {
            let j = choose|j: int| 0 <= j < d.len() && is_message_announcement(#[trigger] d[j]);
            assert(items[j] == d[j]);
        }
        if done_message_count(items) == 0 {
            assert forall|i: int| 0 <= i < items.len() implies !is_done_message(#[trigger] items[i]) by {
                if i < d.len() {
                    assert(items[i] == d[i]);
                }
            }
        }
    }
}

/// Streamed tool calls never announce the message.
proof fn lemma_tool_deltas_no_announcement(s: StreamStateV, tcs: Seq<JValue>)
    ensures
        announcement_count(tool_deltas(s, tcs).1) == 0,
    decreases tcs.len(),
{
    if tcs.len() > 0 {
        lemma_tool_deltas_no_announcement(s, tcs.drop_last());
        let (s1, e1) = tool_deltas(s, tcs.drop_last());
        let e2 = tool_delta(s1, tcs.last()).1;
        lemma_counts_meaning(e2);
        lemma_counts_append(e1, e2);
    }
}

/// The message announcement at the front of a non-empty delta, if the
/// message was not announced yet.
proof fn lemma_with_message_added_counts(s: StreamStateV, d: StreamItemV)
    requires
        !is_message_announcement(d),
        !is_done_message(d),
    ensures
        announcement_count(with_message_added(s).1.push(d)) == if s.message_added {
            0nat
        } else {
            1nat
        },
        done_message_count(with_message_added(s).1.push(d)) == 0,
{
    let e = with_message_added(s).1;
    assert(e.push(d) =~= e + seq![d]);
    lemma_counts_append(e, seq![d]);
    lemma_counts_single(d);
    if !s.message_added {
        lemma_counts_single(ev(ResponseEventV::OutputItemAdded(assistant_placeholder())));
    }
}

/// A delta announces the message exactly when it first marks it added.
proof fn lemma_delta_counts(s: StreamStateV, delta: JValue)
    ensures
        s.message_added ==> delta_applied(s, delta).0.message_added,
        announcement_count(delta_applied(s, delta).1) == if delta_applied(s, delta).0.message_added
            && !s.message_added {
            1nat
        } else {
            0nat
        },
        done_message_count(delta_applied(s, delta).1) == 0,
{
    let (s1, e1) = content_delta(s, delta);
    let (s2, e2) = reasoning_delta(s1, delta);
    let (s3, e3) = match delta.get("tool_calls"@) {
        Some(JValue::Array(a)) => tool_deltas(s2, a),
        _ => (s2, Seq::empty()),
    };
    match delta.get_str("content"@) {
        Some(c) => if c.len() > 0 {
            lemma_with_message_added_counts(s, ev(ResponseEventV::OutputTextDelta(c)));
        },
        None => {},
    }
    match delta.get_str("reasoning_content"@) {
        Some(r) => if r.len() > 0 {
            lemma_with_message_added_counts(
                s1,
                ev(ResponseEventV::ReasoningContentDelta { delta: r, content_index: 0 }),
            );
        },
        None => {},
    }
    match delta.get("tool_calls"@) {
        Some(JValue::Array(a)) => {
            lemma_tool_deltas_no_announcement(s2, a);
            lemma_tool_deltas(s2, a);
        },
        _ => {},
    }
    lemma_delta_applied(s, delta);
    lemma_counts_meaning(delta_applied(s, delta).1);
    lemma_counts_append(e1, e2);
    lemma_counts_append(e1 + e2, e3);
}

/// The closing items announce the message only when the reason is not
/// `"tool_calls"` and it was not announced yet; they finish it at most once,
/// after an announcement.
proof fn lemma_finish_counts(s: StreamStateV, choice: JValue, chunk: JValue, reason: Seq<char>)
    ensures
        announcement_count(finish_items(s, choice, chunk, reason)) <= if s.message_added {
            0nat
        } else {
            1nat
        },
        done_message_count(finish_items(s, choice, chunk, reason)) <= 1,
        forall|k: int|
            0 <= k < finish_items(s, choice, chunk, reason).len() && is_done_message(
                #[trigger] finish_items(s, choice, chunk, reason)[k],
            ) ==> s.message_added || exists|j: int|
                0 <= j < k && is_message_announcement(
                    #[trigger] finish_items(s, choice, chunk, reason)[j],
                ),
{
    let f = finish_items(s, choice, chunk, reason);
    let c = completed(s, usage_of(chunk));
    if reason == "tool_calls"@ {
        let listed = message_tool_calls(choice);
        let cl = closing_items(s);
        let m = if listed.len() > 0 {
            listed.map_values(|tc: JValue| ev(ResponseEventV::OutputItemDone(listed_tool_call(tc))))
        } else {
            s.tool_calls.map_values(
                |t: ToolCallV| ev(ResponseEventV::OutputItemDone(streamed_tool_call(t))),
            )
        };
        assert(f =~= cl + m + seq![c]);
        assert forall|i: int| 0 <= i < m.len() implies !is_message_announcement(#[trigger] m[i])
            && !is_done_message(m[i]) by {}
        lemma_counts_meaning(m);
        lemma_counts_single(c);
        if s.message_added {
            lemma_counts_single(done_message(s.text));
        } else {
            assert(cl =~= Seq::<StreamItemV>::empty());
        }
        lemma_counts_append(cl, m);
        lemma_counts_append(cl + m, seq![c]);
        assert forall|k: int| 0 <= k < f.len() && is_done_message(#[trigger] f[k]) implies s.message_added
            || exists|j: int| 0 <= j < k && is_message_announcement(#[trigger] f[j]) by {
            if !s.message_added {
                if k < m.len() {
                    assert(f[k] == m[k]);
                }
            }
        }
    } else {
        let pre: Seq<StreamItemV> = if s.message_added {
            Seq::empty()
        } else {
            seq![ev(ResponseEventV::OutputItemAdded(assistant_placeholder()))]
        };
        let dm = done_message(s.text);
        assert(f == pre.push(dm).push(c));
        assert(f =~= pre + seq![dm] + seq![c]);
        lemma_counts_append(pre, seq![dm]);
        lemma_counts_append(pre + seq![dm], seq![c]);
        lemma_counts_single(dm);
        lemma_counts_single(c);
        if !s.message_added {
            lemma_counts_single(pre[0]);
        } else {
            assert(announcement_count(pre) == 0 && done_message_count(pre) == 0);
        }
        assert forall|k: int| 0 <= k < f.len() && is_done_message(#[trigger] f[k]) implies s.message_added
            || exists|j: int| 0 <= j < k && is_message_announcement(#[trigger] f[j]) by {
            assert(k == pre.len());
            if !s.message_added {
                assert(is_message_announcement(f[0]));
            }
        }
    }
}

/// One step's accounting of the assistant message: once added it stays
/// added; a step that does not end the stream announces the message exactly
/// when it first marks it added, and finishes nothing; a step that ends it
/// announces the message at most once, and only if it was not yet added, and
/// finishes it at most once, after an announcement.
pub proof fn lemma_step_message_counts(s: StreamStateV, input: StreamInputV)
    ensures
        s.message_added ==> stream_step(s, input).0.message_added,
        !stream_step(s, input).0.done ==> announcement_count(stream_step(s, input).1) == (if stream_step(
            s,
            input,
        ).0.message_added && !s.message_added {
            1nat
        } else {
            0nat
        }) && done_message_count(stream_step(s, input).1) == 0,
        stream_step(s, input).0.done ==> announcement_count(stream_step(s, input).1) <= (if s.message_added {
            0nat
        } else {
            1nat
        }) && done_message_count(stream_step(s, input).1) <= 1,
        forall|k: int|
            0 <= k < stream_step(s, input).1.len() && is_done_message(
                #[trigger] stream_step(s, input).1[k],
            ) ==> s.message_added || exists|j: int|
                0 <= j < k && is_message_announcement(#[trigger] stream_step(s, input).1[j]),
{
    let out = stream_step(s, input).1;
    match input {
        StreamInputV::Data { data } => {
            let parsed = parsed_json(trimmed(data));
            if trimmed(data) == "[DONE]"@ {
                lemma_counts_single(completed(s, None));
            } else {
                match parsed {
                    Some(chunk) => {
                        let s1 = match chunk.get_str("id"@) {
                            Some(id) => StreamStateV { response_id: Some(id), ..s },
                            None => s,
                        };
                        match first_choice(chunk) {
                            None => {
                                lemma_counts_meaning(out);
                            },
                            Some(choice) => {
                                let (s2, e1) = match choice.get("delta"@) {
                                    Some(d) => delta_applied(s1, d),
                                    None => (s1, Seq::empty()),
                                };
                                match choice.get("delta"@) {
                                    Some(d) => lemma_delta_counts(s1, d),
                                    None => lemma_counts_meaning(e1),
                                }
                                lemma_counts_meaning(e1);
                                match choice.get_str("finish_reason"@) {
                                    Some(reason) => {
                                        let f = finish_items(s2, choice, chunk, reason);
                                        lemma_finish_counts(s2, choice, chunk, reason);
                                        lemma_counts_append(e1, f);
                                        assert(out == e1 + f);
                                        assert forall|k: int|
                                            0 <= k < out.len() && is_done_message(
                                                #[trigger] out[k],
                                            ) implies s.message_added || exists|j: int|
                                            0 <= j < k && is_message_announcement(
                                                #[trigger] out[j],
                                            ) by {
                                            if k < e1.len() {
                                                assert(out[k] == e1[k]);
                                            } else {
                                                let kk = k - e1.len();
                                                assert(out[k] == f[kk]);
                                                if !s.message_added {
                                                    if s2.message_added {
                                                        lemma_counts_meaning(e1);
                                                        let j = choose|j: int|
                                                            0 <= j < e1.len() && is_message_announcement(
                                                                #[trigger] e1[j],
                                                            );
                                                        assert(out[j] == e1[j]);
                                                    } else {
                                                        let j = choose|j: int|
                                                            0 <= j < kk && is_message_announcement(
                                                                #[trigger] f[j],
                                                            );
                                                        assert(out[j + e1.len()] == f[j]);
                                                    }
                                                }
                                            }
                                        }
                                    },
                                    None => {},
                                }
                            },
                        }
                    },
                    None => {
                        lemma_counts_meaning(out);
                    },
                }
            }
        },
        StreamInputV::Failure(msg) => {
            lemma_counts_single(StreamItemV::Error("SSE error: "@ + msg));
        },
        StreamInputV::Closed => {
            lemma_counts_single(StreamItemV::Error("stream closed before response.completed"@));
        },
        StreamInputV::IdleTimeout => {
            lemma_counts_single(StreamItemV::Error("idle timeout waiting for SSE"@));
        },
    }
}

/// Driving the stream from its start, the assistant message is announced at
/// most once and finished at most once, and it is only finished after it was
/// announced.
pub proof fn law_message_added_and_done_once(inputs: Seq<StreamInputV>)
    ensures
        announcement_count(driven(initial_state(), inputs).1) <= 1,
        done_message_count(driven(initial_state(), inputs).1) <= 1,
        !driven(initial_state(), inputs).0.done ==> announcement_count(
            driven(initial_state(), inputs).1,
        ) == (if driven(initial_state(), inputs).0.message_added {
            1nat
        } else {
            0nat
        }) && done_message_count(driven(initial_state(), inputs).1) == 0,
        forall|i: int|
            0 <= i < driven(initial_state(), inputs).1.len() && is_done_message(
                #[trigger] driven(initial_state(), inputs).1[i],
            ) ==> exists|j: int|
                0 <= j < i && is_message_announcement(
                    #[trigger] driven(initial_state(), inputs).1[j],
                ),
    decreases inputs.len(),
{
    if inputs.len() > 0 {
        law_message_added_and_done_once(inputs.drop_last());
        let (s1, o1) = driven(initial_state(), inputs.drop_last());
        if !s1.done {
            let (s2, o2) = stream_step(s1, inputs.last());
            lemma_step_message_counts(s1, inputs.last());
            lemma_counts_append(o1, o2);
            lemma_counts_meaning(o1);
            let all = o1 + o2;
            assert forall|i: int| 0 <= i < all.len() && is_done_message(#[trigger] all[i]) implies exists|
                j: int,
            | 0 <= j < i && is_message_announcement(#[trigger] all[j]) by {
                if i < o1.len() {
                    assert(all[i] == o1[i]);
                } else {
                    assert(all[i] == o2[i - o1.len()]);
                    if s1.message_added {
                        let j = choose|j: int| 0 <= j < o1.len() && is_message_announcement(#[trigger] o1[j]);
                        assert(all[j] == o1[j]);
                    } else {
                        let j = choose|j: int|
                            0 <= j < i - o1.len() && is_message_announcement(#[trigger] o2[j]);
                        assert(all[j + o1.len()] == o2[j]);
                    }
                }
            }
        }
    } else {
        assert(announcement_count(Seq::<StreamItemV>::empty()) == 0);
    }
}


/// On a `"tool_calls"` finish, an announced message is finished first, with
/// its text, before any tool call.
pub proof fn law_open_message_closed_before_tool_calls(s: StreamStateV, choice: JValue, chunk: JValue)
    requires
        s.message_added,
    ensures
        finish_items(s, choice, chunk, "tool_calls"@).len() > 1,
        finish_items(s, choice, chunk, "tool_calls"@)[0] == done_message(s.text),
{
    let listed = message_tool_calls(choice);
    let m = if listed.len() > 0 {
        listed.map_values(|tc: JValue| ev(ResponseEventV::OutputItemDone(listed_tool_call(tc))))
    } else {
        s.tool_calls.map_values(
            |t: ToolCallV| ev(ResponseEventV::OutputItemDone(streamed_tool_call(t))),
        )
    };
    let f = finish_items(s, choice, chunk, "tool_calls"@);
    assert(f == (closing_items(s) + m).push(completed(s, usage_of(chunk))));
    assert(f[0] == (closing_items(s) + m)[0]);
}


/// Whether `item` finishes a function call, and carries the `"id"`,
/// `"function"."name"` and `"function"."arguments"` of the listed tool call
/// `tc` (each one that `tc` has as a string).
pub open spec fn finishes_listed_call(item: StreamItemV, tc: JValue) -> bool {
    &&& item matches StreamItemV::Event(
        ResponseEventV::OutputItemDone(ResponseItemV::FunctionCall { .. }),
    )
    &&& tc.get_str("id"@) matches Some(id) ==> item->Event_0->OutputItemDone_0->call_id == id
    &&& tc.get("function"@) matches Some(f) ==> {
        &&& f.get_str("name"@) matches Some(n) ==> item->Event_0->OutputItemDone_0->name == n
        &&& f.get_str("arguments"@) matches Some(a) ==> item->Event_0->OutputItemDone_0->arguments
            == a
    }
}

/// A chunk that finishes its first choice with `"tool_calls"` and lists the
/// calls in the choice's message: every listed call is finished, one item
/// each, in the listed order (after the open message, if there is one), and
/// then the stream completes.
pub proof fn law_listed_tool_calls_are_all_finished(
    s: StreamStateV,
    chunk: JValue,
    choices: Seq<JValue>,
    message: JValue,
    listed: Seq<JValue>,
)
    requires
        chunk.get("choices"@) == Some(JValue::Array(choices)),
        choices.len() > 0,
        choices[0].get("delta"@) is None,
        choices[0].get_str("finish_reason"@) == Some("tool_calls"@),
        choices[0].get("message"@) == Some(message),
        message.get("tool_calls"@) == Some(JValue::Array(listed)),
        listed.len() > 0,
    ensures
        parsed_applied(s, Some(chunk)).1.len() == (if s.message_added {
            1int
        } else {
            0int
        }) + listed.len() + 1,
        forall|i: int|
            0 <= i < listed.len() ==> finishes_listed_call(
                parsed_applied(s, Some(chunk)).1[(if s.message_added {
                    1int
                } else {
                    0int
                }) + i],
                #[trigger] listed[i],
            ),
        is_terminal(parsed_applied(s, Some(chunk)).1.last()),
        parsed_applied(s, Some(chunk)).0.done,
{
    reveal_strlit("tool_calls");
    let choice = choices[0];
    let s1 = match chunk.get_str("id"@) {
        Some(id) => StreamStateV { response_id: Some(id), ..s },
        None => s,
    };
    assert(first_choice(chunk) == Some(choice));
    let out = parsed_applied(s, Some(chunk)).1;
    let f = finish_items(s1, choice, chunk, "tool_calls"@);
    assert(out =~= Seq::<StreamItemV>::empty() + f);
    let cl = closing_items(s1);
    let m = listed.map_values(|tc: JValue| ev(ResponseEventV::OutputItemDone(listed_tool_call(tc))));
    assert(message_tool_calls(choice) == listed);
    assert(f == (cl + m).push(completed(s1, usage_of(chunk))));
    let k: int = if s.message_added {
        1int
    } else {
        0int
    };
    assert(cl.len() == k);
    assert forall|i: int| 0 <= i < listed.len() implies finishes_listed_call(
        out[k + i],
        #[trigger] listed[i],
    ) by {
        assert(out[k + i] == f[k + i]);
        assert(f[k + i] == (cl + m)[k + i]);
        assert((cl + m)[k + i] == m[i]);
    }
}

/// A chunk whose first choice has a delta passes on the delta's non-empty
/// `"content"` as message text and its non-empty `"reasoning_content"` as
/// reasoning text, each whatever else the delta holds.
pub proof fn law_deltas_are_passed_on(
    s: StreamStateV,
    chunk: JValue,
    choices: Seq<JValue>,
    delta: JValue,
)
    requires
        chunk.get("choices"@) == Some(JValue::Array(choices)),
        choices.len() > 0,
        choices[0].get("delta"@) == Some(delta),
    ensures
        forall|c: Seq<char>|
            delta.get_str("content"@) == Some(c) && c.len() > 0 ==> exists|j: int|
            0 <= j < parsed_applied(s, Some(chunk)).1.len() && #[trigger] parsed_applied(
                s,
                Some(chunk),
            ).1[j] == ev(ResponseEventV::OutputTextDelta(c)),
        forall|r: Seq<char>|
            delta.get_str("reasoning_content"@) == Some(r) && r.len() > 0 ==> exists|j: int|
            0 <= j < parsed_applied(s, Some(chunk)).1.len() && #[trigger] parsed_applied(
                s,
                Some(chunk),
            ).1[j] == ev(ResponseEventV::ReasoningContentDelta { delta: r, content_index: 0 }),
{
    let choice = choices[0];
    let s1 = match chunk.get_str("id"@) {
        Some(id) => StreamStateV { response_id: Some(id), ..s },
        None => s,
    };
    assert(first_choice(chunk) == Some(choice));
    let out = parsed_applied(s, Some(chunk)).1;
    let (sa, e1) = content_delta(s1, delta);
    let (sb, e2) = reasoning_delta(sa, delta);
    let (s2, e3) = match delta.get("tool_calls"@) {
        Some(JValue::Array(a)) => tool_deltas(sb, a),
        _ => (sb, Seq::empty()),
    };
    let e = e1 + e2 + e3;
    assert(delta_applied(s1, delta) == (s2, e));
    match choice.get_str("finish_reason"@) {
        Some(reason) => {
            let f = finish_items(s2, choice, chunk, reason);
            assert(out == e + f);
            assert forall|j: int| 0 <= j < e.len() implies out[j] == e[j] by {}
        },
        None => {
            assert(out == e);
        },
    }
    match delta.get_str("content"@) {
        Some(c) => if c.len() > 0 {
            let j = e1.len() - 1;
            assert(e1.last() == ev(ResponseEventV::OutputTextDelta(c)));
            assert(e[j] == (e1 + e2)[j]);
            assert((e1 + e2)[j] == e1[j]);
            assert(out[j] == e[j]);
        },
        None => {},
    }
    match delta.get_str("reasoning_content"@) {
        Some(r) => if r.len() > 0 {
            let j = e1.len() + e2.len() - 1;
            assert(e2.last() == ev(ResponseEventV::ReasoningContentDelta { delta: r, content_index: 0 }));
            assert(e[j] == (e1 + e2)[j]);
            assert((e1 + e2)[j] == e2[j - e1.len()]);
            assert(out[j] == e[j]);
        },
        None => {},
    }
}


/// The whole-number member `k` of `v`, or 0.
pub open spec fn count_of(v: JValue, k: Seq<char>) -> i64 {
    match v.get_i64(k) {
        Some(n) => n,
        None => 0,
    }
}

/// The Responses token usage a chunk's Chat `"usage"` object reports:
/// `prompt_tokens` as input, `completion_tokens` as output,
/// `completion_tokens_details.reasoning_tokens` as reasoning output and
/// `total_tokens` as the total (0 for each that is missing), nothing cached;
/// none when there is no usage object.
pub open spec fn reported_usage(chunk: JValue) -> Option<TokenUsage> {
    match chunk.get("usage"@) {
        Some(u) => if u is Object {
            Some(
                TokenUsage {
                    input_tokens: count_of(u, "prompt_tokens"@),
                    cached_input_tokens: 0,
                    output_tokens: count_of(u, "completion_tokens"@),
                    reasoning_output_tokens: match u.get("completion_tokens_details"@) {
                        Some(d) => count_of(d, "reasoning_tokens"@),
                        None => 0,
                    },
                    total_tokens: count_of(u, "total_tokens"@),
                },
            )
        } else {
            None
        },
        None => None,
    }
}

/// Streamed tool call deltas leave the response id alone.
proof fn lemma_tool_deltas_keep_id(s: StreamStateV, tcs: Seq<JValue>)
    ensures
        tool_deltas(s, tcs).0.response_id == s.response_id,
        tool_deltas(s, tcs).0.tool_calls == s.tool_calls || tcs.len() > 0,
    decreases tcs.len(),
{
    if tcs.len() > 0 {
        lemma_tool_deltas_keep_id(s, tcs.drop_last());
    }
}

/// A chunk that finishes its first choice ends the stream with a completion
/// that carries the chunk's id (else the last id seen, else none) and the
/// chunk's reported usage.
pub proof fn law_completion_carries_id_and_usage(
    s: StreamStateV,
    chunk: JValue,
    choices: Seq<JValue>,
    reason: Seq<char>,
)
    requires
        chunk.get("choices"@) == Some(JValue::Array(choices)),
        choices.len() > 0,
        choices[0].get_str("finish_reason"@) == Some(reason),
    ensures
        parsed_applied(s, Some(chunk)).0.done,
        parsed_applied(s, Some(chunk)).1.len() > 0,
        parsed_applied(s, Some(chunk)).1.last() == ev(
            ResponseEventV::Completed {
                response_id: match chunk.get_str("id"@) {
                    Some(id) => id,
                    None => match s.response_id {
                        Some(r) => r,
                        None => Seq::empty(),
                    },
                },
                token_usage: reported_usage(chunk),
                end_turn: None,
            },
        ),
{
    let choice = choices[0];
    let s1 = match chunk.get_str("id"@) {
        Some(id) => StreamStateV { response_id: Some(id), ..s },
        None => s,
    };
    assert(first_choice(chunk) == Some(choice));
    let (s2, e1) = match choice.get("delta"@) {
        Some(d) => delta_applied(s1, d),
        None => (s1, Seq::empty()),
    };
    match choice.get("delta"@) {
        Some(d) => {
            let (sa, ea) = content_delta(s1, d);
            let (sb, eb) = reasoning_delta(sa, d);
            match d.get("tool_calls"@) {
                Some(JValue::Array(a)) => lemma_tool_deltas_keep_id(sb, a),
                _ => {},
            }
        },
        None => {},
    }
    assert(s2.response_id == s1.response_id);
    let f = finish_items(s2, choice, chunk, reason);
    lemma_finish_items(s2, choice, chunk, reason);
    let out = parsed_applied(s, Some(chunk)).1;
    assert(out == e1 + f);
    assert(out.last() == f.last());
    assert(usage_of(chunk) == reported_usage(chunk));
}

/// The inputs that are not chunks: the `[DONE]` marker (with any white space
/// around it) ends the stream with a completion that has the last id seen
/// and no usage; a failure, the end of the stream and an idle timeout each
/// end it with one error saying so; data that is not JSON changes nothing.
pub proof fn law_end_inputs(s: StreamStateV, input: StreamInputV)
    ensures
        input matches StreamInputV::Data { data } && trimmed(data) == "[DONE]"@ ==> (stream_step(
            s,
            input,
        ).0.done && stream_step(s, input).1 == seq![
            ev(
                ResponseEventV::Completed {
                    response_id: match s.response_id {
                        Some(r) => r,
                        None => Seq::empty(),
                    },
                    token_usage: None,
                    end_turn: None,
                },
            ),
        ]),
        input matches StreamInputV::Data { data } && trimmed(data) != "[DONE]"@ && parsed_json(
            trimmed(data),
        ) is None ==> stream_step(s, input) == (s, Seq::<StreamItemV>::empty()),
        input matches StreamInputV::Failure(m) ==> (stream_step(s, input).0.done && stream_step(
            s,
            input,
        ).1 == seq![StreamItemV::Error("SSE error: "@ + m)]),
        input is Closed ==> stream_step(s, input).0.done && stream_step(s, input).1 == seq![
            StreamItemV::Error("stream closed before response.completed"@),
        ],
        input is IdleTimeout ==> stream_step(s, input).0.done && stream_step(s, input).1 == seq![
            StreamItemV::Error("idle timeout waiting for SSE"@),
        ],
{
}

/// Whether a choice lists no tool calls in its message.
pub open spec fn lists_no_calls(choice: JValue) -> bool {
    forall|m: JValue, a: Seq<JValue>|
        choice.get("message"@) == Some(m) && m.get("tool_calls"@) == Some(JValue::Array(a)) ==> a.len()
            == 0
}

/// A chunk that finishes its first choice with `"tool_calls"` without
/// listing them finishes every tool call streamed so far, one item each, in
/// the order the state keeps them (by index), with the id, name and
/// arguments they were streamed with (after the open message, if there is
/// one), and then the stream completes.
pub proof fn law_streamed_tool_calls_are_all_finished(
    s: StreamStateV,
    chunk: JValue,
    choices: Seq<JValue>,
)
    requires
        chunk.get("choices"@) == Some(JValue::Array(choices)),
        choices.len() > 0,
        choices[0].get("delta"@) is None,
        choices[0].get_str("finish_reason"@) == Some("tool_calls"@),
        lists_no_calls(choices[0]),
    ensures
        parsed_applied(s, Some(chunk)).1.len() == (if s.message_added {
            1int
        } else {
            0int
        }) + s.tool_calls.len() + 1,
        forall|i: int|
            0 <= i < s.tool_calls.len() ==> parsed_applied(s, Some(chunk)).1[(if s.message_added {
                1int
            } else {
                0int
            }) + i] == ev(
                ResponseEventV::OutputItemDone(
                    ResponseItemV::FunctionCall {
                        name: (#[trigger] s.tool_calls[i]).name,
                        arguments: s.tool_calls[i].arguments,
                        call_id: s.tool_calls[i].id,
                    },
                ),
            ),
{
    reveal_strlit("tool_calls");
    let choice = choices[0];
    let s1 = match chunk.get_str("id"@) {
        Some(id) => StreamStateV { response_id: Some(id), ..s },
        None => s,
    };
    assert(first_choice(chunk) == Some(choice));
    let out = parsed_applied(s, Some(chunk)).1;
    let f = finish_items(s1, choice, chunk, "tool_calls"@);
    assert(out =~= Seq::<StreamItemV>::empty() + f);
    let cl = closing_items(s1);
    assert(message_tool_calls(choice).len() == 0) by {
        match choice.get("message"@) {
            Some(m) => match m.get("tool_calls"@) {
                Some(JValue::Array(a)) => {
                    assert(choice.get("message"@) == Some(m) && m.get("tool_calls"@) == Some(
                        JValue::Array(a),
                    ));
                },
                _ => {},
            },
            None => {},
        }
    }
    let m = s1.tool_calls.map_values(
        |t: ToolCallV| ev(ResponseEventV::OutputItemDone(streamed_tool_call(t))),
    );
    assert(f == (cl + m).push(completed(s1, usage_of(chunk))));
    let k: int = if s.message_added {
        1int
    } else {
        0int
    };
    assert(cl.len() == k);
    assert forall|i: int| 0 <= i < s.tool_calls.len() implies out[k + i] == ev(
        ResponseEventV::OutputItemDone(
            ResponseItemV::FunctionCall {
                name: (#[trigger] s.tool_calls[i]).name,
                arguments: s.tool_calls[i].arguments,
                call_id: s.tool_calls[i].id,
            },
        ),
    ) by {
        assert(out[k + i] == f[k + i]);
        assert(f[k + i] == (cl + m)[k + i]);
        assert((cl + m)[k + i] == m[i]);
    }
}


/// What looking a tool call up by index finds: one of the calls, with that
/// index, or nothing when no call has it.
proof fn lemma_tool_find_found(calls: Seq<ToolCallV>, index: i64)
    ensures
        tool_find(calls, index) matches Some(t) ==> exists|j: int|
            0 <= j < calls.len() && calls[j] == t && t.index == index,
        tool_find(calls, index) is None ==> forall|j: int|
            0 <= j < calls.len() ==> (#[trigger] calls[j]).index != index,
    decreases calls.len(),
{
    if calls.len() > 0 {
        let d = calls.drop_last();
        lemma_tool_find_found(d, index);
        if calls.last().index == index {
            assert(calls[calls.len() - 1] == calls.last());
        } else {
            match tool_find(d, index) {
                Some(t) => {
                    let j = choose|j: int| 0 <= j < d.len() && d[j] == t && t.index == index;
                    assert(calls[j] == d[j]);
                },
                None => {
                    assert forall|j: int| 0 <= j < calls.len() implies (#[trigger] calls[j]).index
                        != index by {
                        if j < d.len() {
                            assert(calls[j] == d[j]);
                        }
                    }
                },
            }
        }
    }
}

/// Putting a call in keeps it there.
proof fn lemma_tool_upsert_has(calls: Seq<ToolCallV>, t: ToolCallV)
    ensures
        exists|j: int| 0 <= j < tool_upsert(calls, t).len() && tool_upsert(calls, t)[j] == t,
    decreases calls.len(),
{
    if calls.len() == 0 {
        assert(tool_upsert(calls, t)[0] == t);
    } else if calls.last().index == t.index {
        assert(tool_upsert(calls, t)[calls.len() - 1] == t);
    } else if calls.last().index < t.index {
        assert(tool_upsert(calls, t)[calls.len() as int] == t);
    } else {
        let d = calls.drop_last();
        lemma_tool_upsert_has(d, t);
        let j = choose|j: int| 0 <= j < tool_upsert(d, t).len() && tool_upsert(d, t)[j] == t;
        assert(tool_upsert(calls, t)[j] == tool_upsert(d, t)[j]);
    }
}

/// A chunk whose first choice streams one tool call delta with `"index"` and
/// `"function"."arguments"`: afterwards the state holds a call with that
/// index whose arguments are the ones streamed for it before (none for a new
/// call) followed by these, and whose id is the delta's id when it has one.
pub proof fn law_tool_call_arguments_accumulate(
    s: StreamStateV,
    chunk: JValue,
    choices: Seq<JValue>,
    delta: JValue,
    tc: JValue,
    function: JValue,
    index: i64,
    args: Seq<char>,
)
    requires
        tool_calls_in_order(s.tool_calls),
        chunk.get("choices"@) == Some(JValue::Array(choices)),
        choices.len() > 0,
        choices[0].get("delta"@) == Some(delta),
        delta.get("tool_calls"@) == Some(JValue::Array(seq![tc])),
        tc.get_i64("index"@) == Some(index),
        tc.get("function"@) == Some(function),
        function.get_str("arguments"@) == Some(args),
    ensures
        forall|j0: int|
            0 <= j0 < s.tool_calls.len() && s.tool_calls[j0].index == index ==> exists|j: int|
                0 <= j < parsed_applied(s, Some(chunk)).0.tool_calls.len() && (#[trigger] parsed_applied(
                    s,
                    Some(chunk),
                ).0.tool_calls[j]).index == index && parsed_applied(s, Some(chunk)).0.tool_calls[j].arguments
                    == s.tool_calls[j0].arguments + args,
        (forall|j0: int| 0 <= j0 < s.tool_calls.len() ==> (#[trigger] s.tool_calls[j0]).index != index)
            ==> exists|j: int|
            0 <= j < parsed_applied(s, Some(chunk)).0.tool_calls.len() && (#[trigger] parsed_applied(
                s,
                Some(chunk),
            ).0.tool_calls[j]).index == index && parsed_applied(s, Some(chunk)).0.tool_calls[j].arguments
                == args,
        forall|id: Seq<char>|
            tc.get_str("id"@) == Some(id) ==> exists|j: int|
                0 <= j < parsed_applied(s, Some(chunk)).0.tool_calls.len() && (#[trigger] parsed_applied(
                    s,
                    Some(chunk),
                ).0.tool_calls[j]).index == index && parsed_applied(s, Some(chunk)).0.tool_calls[j].id
                    == id,
{
    let choice = choices[0];
    let s1 = match chunk.get_str("id"@) {
        Some(id) => StreamStateV { response_id: Some(id), ..s },
        None => s,
    };
    assert(first_choice(chunk) == Some(choice));
    let (sa, ea) = content_delta(s1, delta);
    let (sb, eb) = reasoning_delta(sa, delta);
    assert(sb.tool_calls == s.tool_calls);
    let one = seq![tc];
    assert(one.drop_last() =~= Seq::<JValue>::empty());
    assert(one.last() == tc);
    assert(tool_deltas(sb, one.drop_last()) == (sb, Seq::<StreamItemV>::empty()));
    assert(tool_deltas(sb, one).0 == tool_delta(sb, tc).0);
    let calls = s.tool_calls;
    let prev = match tool_find(calls, index) {
        Some(t) => t,
        None => ToolCallV {
            index,
            id: Seq::empty(),
            name: Seq::empty(),
            arguments: Seq::empty(),
            announced: false,
        },
    };
    assert(nested_str(tc, "function"@, "arguments"@) == Some(args));
    let id = match tc.get_str("id"@) {
        Some(i) => i,
        None => prev.id,
    };
    let name = match nested_str(tc, "function"@, "name"@) {
        Some(n) => n,
        None => prev.name,
    };
    let t = ToolCallV { index, id, name, arguments: prev.arguments + args, announced: true };
    let after = parsed_applied(s, Some(chunk)).0.tool_calls;
    assert(after == tool_upsert(calls, t));
    lemma_tool_upsert_has(calls, t);
    lemma_tool_find_found(calls, index);
    let j = choose|j: int| 0 <= j < after.len() && after[j] == t;
    assert(after[j].index == index);
    assert forall|j0: int|
        0 <= j0 < calls.len() && calls[j0].index == index implies exists|j: int|
            0 <= j < after.len() && (#[trigger] after[j]).index == index && after[j].arguments
                == calls[j0].arguments + args by {
        match tool_find(calls, index) {
            Some(f) => {
                let k = choose|k: int| 0 <= k < calls.len() && calls[k] == f && f.index == index;
                if k < j0 {
                    assert(calls[k].index < calls[j0].index);
                } else if j0 < k {
                    assert(calls[j0].index < calls[k].index);
                }
                assert(prev == calls[j0]);
            },
            None => {
                assert(calls[j0].index != index);
            },
        }
    }
    if forall|j0: int| 0 <= j0 < calls.len() ==> (#[trigger] calls[j0]).index != index {
        match tool_find(calls, index) {
            Some(f) => {
                let k = choose|k: int| 0 <= k < calls.len() && calls[k] == f && f.index == index;
                assert(calls[k].index != index);
            },
            None => {
                assert(prev.arguments + args =~= args);
            },
        }
    }
}

} // verus!
