//! Conversion of a Responses API request body into a Chat Completions request
//! body.
//!
//! The conversion is stated over [`JValue`] by the spec functions below, and
//! each executable function is proved to compute exactly its spec function.
use vstd::prelude::*;

use crate::json::{
    lacks_key, lemma_lacks_key_lookup, lemma_lookup_insert, lemma_lookup_remove, lemma_remove_key_unique,
    unique_keys,
    entries_view, insert_entry, insert_entry_exec, lemma_array_view, lemma_object_view, lookup,
    remove_key, remove_key_exec, values_view, Entries, JValue, Json, lookup_entry, opt_view,
};
use crate::text::str_eq;

verus! {

// ---------------------------------------------------------------------------
// Specification
// ---------------------------------------------------------------------------

/// A string value.
pub open spec fn jstr(s: Seq<char>) -> JValue {
    JValue::Str(s)
}

/// A one-entry object.
pub open spec fn obj1(k1: Seq<char>, v1: JValue) -> JValue {
    JValue::Object(seq![(k1, v1)])
}

/// A two-entry object.
pub open spec fn obj2(k1: Seq<char>, v1: JValue, k2: Seq<char>, v2: JValue) -> JValue {
    JValue::Object(seq![(k1, v1), (k2, v2)])
}

/// A three-entry object.
pub open spec fn obj3(
    k1: Seq<char>,
    v1: JValue,
    k2: Seq<char>,
    v2: JValue,
    k3: Seq<char>,
    v3: JValue,
) -> JValue {
    JValue::Object(seq![(k1, v1), (k2, v2), (k3, v3)])
}

/// The string member `k` of `v`, or the empty string.
pub open spec fn str_or_empty(v: JValue, k: Seq<char>) -> Seq<char> {
    match v.get_str(k) {
        Some(s) => s,
        None => Seq::empty(),
    }
}

/// The concatenation of the string `"text"` members of `items`, in order;
/// items without one contribute nothing.
pub open spec fn joined_texts(items: Seq<JValue>) -> Seq<char>
    decreases items.len(),
{
    if items.len() == 0 {
        Seq::empty()
    } else {
        joined_texts(items.drop_last()) + str_or_empty(items.last(), "text"@)
    }
}

/// Like [`joined_texts`], but only items whose `"type"` is `"text"` count.
pub open spec fn joined_typed_texts(items: Seq<JValue>) -> Seq<char>
    decreases items.len(),
{
    if items.len() == 0 {
        Seq::empty()
    } else {
        joined_typed_texts(items.drop_last()) + if items.last().get_str("type"@) == Some(
            "text"@,
        ) {
            str_or_empty(items.last(), "text"@)
        } else {
            Seq::empty()
        }
    }
}

/// The Chat Completions name of a Responses content item type, if it has another one.
pub open spec fn chat_content_type(t: Seq<char>) -> Option<Seq<char>> {
    if t == "input_text"@ || t == "output_text"@ {
        Some("text"@)
    } else if t == "input_image"@ {
        Some("image_url"@)
    } else {
        None
    }
}

/// One content item with its `"type"` renamed where the Chat API uses another name.
pub open spec fn content_item_converted(item: JValue) -> JValue {
    match item {
        JValue::Object(es) => match lookup(es, "type"@) {
            Some(t) => match t.as_str() {
                Some(ts) => match chat_content_type(ts) {
                    Some(n) => JValue::Object(insert_entry(es, "type"@, jstr(n))),
                    None => item,
                },
                None => item,
            },
            None => item,
        },
        _ => item,
    }
}

/// A content value with every item's type renamed; anything but an array is kept.
pub open spec fn content_types_converted(content: JValue) -> JValue {
    match content {
        JValue::Array(items) => JValue::Array(items.map_values(|it: JValue| content_item_converted(it))),
        _ => content,
    }
}

/// The assistant message that stands for a Responses `function_call` item.
pub open spec fn function_call_message(item: JValue) -> JValue {
    obj3(
        "role"@,
        jstr("assistant"@),
        "content"@,
        JValue::Null,
        "tool_calls"@,
        JValue::Array(
            seq![
                obj3(
                    "id"@,
                    jstr(str_or_empty(item, "call_id"@)),
                    "type"@,
                    jstr("function"@),
                    "function"@,
                    obj2(
                        "name"@,
                        jstr(str_or_empty(item, "name"@)),
                        "arguments"@,
                        jstr(str_or_empty(item, "arguments"@)),
                    ),
                ),
            ],
        ),
    )
}

/// The text of a `function_call_output` item's `"output"`: the string itself,
/// or the joined texts of an array, or nothing.
pub open spec fn tool_output_text(item: JValue) -> Seq<char> {
    match item.get("output"@) {
        Some(JValue::Str(s)) => s,
        Some(JValue::Array(items)) => joined_texts(items),
        _ => Seq::empty(),
    }
}

/// The `tool` message that stands for a Responses `function_call_output` item.
pub open spec fn tool_result_message(item: JValue) -> JValue {
    obj3(
        "role"@,
        jstr("tool"@),
        "tool_call_id"@,
        jstr(str_or_empty(item, "call_id"@)),
        "content"@,
        jstr(tool_output_text(item)),
    )
}

/// The text carried by a Responses `reasoning` item.
pub open spec fn reasoning_text(item: JValue) -> Seq<char> {
    match item.get("content"@) {
        Some(JValue::Array(items)) => joined_texts(items),
        _ => Seq::empty(),
    }
}

/// The placeholder a reasoning item turns into until it is dropped.
pub open spec fn removal_marker() -> JValue {
    obj1("__remove__"@, JValue::Bool(true))
}

/// Reasoning text waiting for the next assistant message, after `text` is added.
pub open spec fn pending_after_reasoning(pending: Option<Seq<char>>, text: Seq<char>) -> Option<
    Seq<char>,
> {
    if text.len() > 0 {
        match pending {
            Some(p) => Some(p + text),
            None => Some(text),
        }
    } else {
        pending
    }
}

/// The prefix put before the content of a `tool` message turned into a `user` one.
pub open spec fn tool_result_prefix(call_id: Option<Seq<char>>) -> Seq<char> {
    match call_id {
        Some(id) => "[Tool result for "@ + id + "]\n"@,
        None => Seq::empty(),
    }
}

/// The entries of a chat message after its role is mapped: `developer` becomes
/// `system`; `tool` becomes `user`, with the tool call id put in front of the content.
pub open spec fn role_converted(es: Entries) -> Entries {
    match lookup(es, "role"@) {
        Some(role) => if role.as_str() == Some("developer"@) {
            insert_entry(es, "role"@, jstr("system"@))
        } else if role.as_str() == Some("tool"@) {
            let es1 = insert_entry(es, "role"@, jstr("user"@));
            let prefix = tool_result_prefix(JValue::Object(es1).get_str("tool_call_id"@));
            match lookup(es1, "content"@) {
                Some(JValue::Str(s)) => insert_entry(es1, "content"@, jstr(prefix + s)),
                Some(JValue::Array(items)) => insert_entry(
                    es1,
                    "content"@,
                    jstr(prefix + joined_texts(items)),
                ),
                _ => es1,
            }
        } else {
            es
        },
        None => es,
    }
}

/// Whether entries describe an assistant message.
pub open spec fn is_assistant(es: Entries) -> bool {
    JValue::Object(es).get_str("role"@) == Some("assistant"@)
}

/// The content of a chat message after conversion: item types renamed, and for
/// an assistant, an array whose text items hold some text flattened into that text.
pub open spec fn content_converted(content: JValue, assistant: bool) -> JValue {
    let c = content_types_converted(content);
    match c {
        JValue::Array(items) => if assistant && joined_typed_texts(items).len() > 0 {
            jstr(joined_typed_texts(items))
        } else {
            c
        },
        _ => c,
    }
}

/// A message that has a role (or no type the converter knows): role mapping,
/// pending reasoning attached to an assistant, and content conversion.
pub open spec fn chat_message_converted(es: Entries, pending: Option<Seq<char>>) -> (
    JValue,
    Option<Seq<char>>,
) {
    let es1 = role_converted(es);
    let assistant = is_assistant(es1);
    let (es2, pending2) = if assistant && pending is Some {
        (insert_entry(es1, "reasoning_content"@, jstr(pending->0)), None::<Seq<char>>)
    } else {
        (es1, pending)
    };
    let es3 = match lookup(es2, "content"@) {
        Some(c) => insert_entry(es2, "content"@, content_converted(c, assistant)),
        None => es2,
    };
    (JValue::Object(es3), pending2)
}

/// One input item converted, given the reasoning text still waiting for an
/// assistant message; gives back the new waiting text too.
pub open spec fn message_converted(msg: JValue, pending: Option<Seq<char>>) -> (
    JValue,
    Option<Seq<char>>,
) {
    match msg {
        JValue::Object(es) => {
            let t = msg.get_str("type"@);
            if t == Some("function_call"@) {
                (function_call_message(msg), pending)
            } else if t == Some("function_call_output"@) {
                (tool_result_message(msg), pending)
            } else if t == Some("reasoning"@) {
                (removal_marker(), pending_after_reasoning(pending, reasoning_text(msg)))
            } else {
                chat_message_converted(es, pending)
            }
        },
        _ => (msg, pending),
    }
}

/// All input items converted front to back, with the reasoning text left waiting.
pub open spec fn messages_converted(msgs: Seq<JValue>) -> (Seq<JValue>, Option<Seq<char>>)
    decreases msgs.len(),
{
    if msgs.len() == 0 {
        (Seq::empty(), None)
    } else {
        let (prev, pending) = messages_converted(msgs.drop_last());
        let (m, pending2) = message_converted(msgs.last(), pending);
        (prev.push(m), pending2)
    }
}

/// Whether an item is an object that carries the removal marker key.
pub open spec fn is_marked(m: JValue) -> bool {
    m is Object && m.get("__remove__"@) is Some
}

/// The items without the marked ones.
pub open spec fn unmarked(msgs: Seq<JValue>) -> Seq<JValue>
    decreases msgs.len(),
{
    if msgs.len() == 0 {
        msgs
    } else if is_marked(msgs.last()) {
        unmarked(msgs.drop_last())
    } else {
        unmarked(msgs.drop_last()).push(msgs.last())
    }
}

/// An assistant message that carries tool calls.
pub open spec fn is_assistant_with_tools(m: JValue) -> bool {
    m.get_str("role"@) == Some("assistant"@) && m.get("tool_calls"@) is Some
}

/// `cur`'s tool calls appended to `last`'s (when both are arrays), and `cur`'s
/// content taken when `last` has none or a null one.
pub open spec fn merged_pair(last: JValue, cur: JValue) -> JValue {
    match (last, cur) {
        (JValue::Object(les), JValue::Object(ces)) => {
            let les1 = match (lookup(les, "tool_calls"@), lookup(ces, "tool_calls"@)) {
                (Some(JValue::Array(a)), Some(JValue::Array(b))) => insert_entry(
                    les,
                    "tool_calls"@,
                    JValue::Array(a + b),
                ),
                _ => les,
            };
            let les2 = match lookup(les1, "content"@) {
                Some(JValue::Null) | None => match lookup(ces, "content"@) {
                    Some(cc) => insert_entry(les1, "content"@, cc),
                    None => les1,
                },
                _ => les1,
            };
            JValue::Object(les2)
        },
        _ => last,
    }
}

/// `msg` added after the already merged messages.
pub open spec fn merge_step(acc: Seq<JValue>, msg: JValue) -> Seq<JValue> {
    if is_assistant_with_tools(msg) && acc.len() > 0 && is_assistant_with_tools(acc.last()) {
        acc.update(acc.len() - 1, merged_pair(acc.last(), msg))
    } else {
        acc.push(msg)
    }
}

/// Runs of assistant messages with tool calls merged into one message each.
pub open spec fn merged_messages(msgs: Seq<JValue>) -> Seq<JValue>
    decreases msgs.len(),
{
    if msgs.len() == 0 {
        msgs
    } else {
        merge_step(merged_messages(msgs.drop_last()), msgs.last())
    }
}

/// The system message built from non-empty instructions.
pub open spec fn system_message(text: Seq<char>) -> JValue {
    obj2("role"@, jstr("system"@), "content"@, jstr(text))
}

/// The Chat Completions `messages` for a Responses `input` and the
/// `instructions` that came with it.
pub open spec fn chat_messages(input: JValue, instructions: Option<JValue>) -> Seq<JValue> {
    let items = match input {
        JValue::Array(items) => items,
        _ => seq![input],
    };
    let merged = merged_messages(unmarked(messages_converted(items).0));
    match instructions {
        Some(JValue::Str(t)) => if t.len() > 0 {
            seq![system_message(t)] + merged
        } else {
            merged
        },
        _ => merged,
    }
}

/// Every entry of `es` inserted, in order, into `acc`.
pub open spec fn insert_all(acc: Entries, es: Entries) -> Entries
    decreases es.len(),
{
    if es.len() == 0 {
        acc
    } else {
        let prev = insert_all(acc, es.drop_last());
        insert_entry(prev, es.last().0, es.last().1)
    }
}

/// The members of a Responses function tool that move into the nested `"function"`.
pub open spec fn tool_extra_entries(es: Entries) -> Entries {
    remove_key(
        remove_key(
            remove_key(remove_key(remove_key(es, "type"@), "name"@), "description"@),
            "parameters"@,
        ),
        "strict"@,
    )
}

/// The member `k`, or null.
pub open spec fn member_or_null(es: Entries, k: Seq<char>) -> JValue {
    match lookup(es, k) {
        Some(v) => v,
        None => JValue::Null,
    }
}

/// A Responses tool in Chat Completions form; only function tools have one.
pub open spec fn tool_converted(tool: JValue) -> Option<JValue> {
    match tool {
        JValue::Object(es) => if tool.get_str("type"@) == Some("function"@) {
            let func = JValue::Object(
                seq![
                    ("name"@, member_or_null(es, "name"@)),
                    ("description"@, member_or_null(es, "description"@)),
                    ("parameters"@, member_or_null(es, "parameters"@)),
                    ("strict"@, member_or_null(es, "strict"@)),
                ],
            );
            let base = seq![("type"@, jstr("function"@)), ("function"@, func)];
            Some(JValue::Object(insert_all(base, tool_extra_entries(es))))
        } else {
            None
        },
        _ => None,
    }
}

/// The function tools of a list, converted; other tools are dropped.
pub open spec fn tools_converted(tools: Seq<JValue>) -> Seq<JValue>
    decreases tools.len(),
{
    if tools.len() == 0 {
        tools
    } else {
        match tool_converted(tools.last()) {
            Some(t) => tools_converted(tools.drop_last()).push(t),
            None => tools_converted(tools.drop_last()),
        }
    }
}

/// The entries without the members a Chat Completions endpoint does not take.
pub open spec fn unsupported_members_removed(es: Entries) -> Entries {
    remove_key(
        remove_key(
            remove_key(
                remove_key(
                    remove_key(
                        remove_key(remove_key(es, "store"@), "include"@),
                        "prompt_cache_key"@,
                    ),
                    "service_tier"@,
                ),
                "client_metadata"@,
            ),
            "reasoning"@,
        ),
        "parallel_tool_calls"@,
    )
}

/// The value that turns off a provider's thinking mode.
pub open spec fn thinking_disabled() -> JValue {
    obj1("type"@, jstr("disabled"@))
}

/// The members of a Responses request object in Chat Completions form.
pub open spec fn body_entries_converted(es: Entries) -> Entries {
    let input = lookup(es, "input"@);
    let es_a = remove_key(es, "input"@);
    let (chat_a, es_b) = match input {
        Some(inp) => (
            seq![
                ("messages"@, JValue::Array(chat_messages(inp, lookup(es_a, "instructions"@)))),
            ],
            remove_key(es_a, "instructions"@),
        ),
        None => (Seq::empty(), es_a),
    };
    let chat_b = match lookup(es_b, "max_output_tokens"@) {
        Some(m) => insert_entry(chat_a, "max_tokens"@, m),
        None => chat_a,
    };
    let es_c = remove_key(es_b, "max_output_tokens"@);
    let chat_c = match lookup(es_c, "text"@) {
        Some(t) => match t.get("format"@) {
            Some(f) => insert_entry(chat_b, "response_format"@, f),
            None => chat_b,
        },
        None => chat_b,
    };
    let es_d = unsupported_members_removed(remove_key(es_c, "text"@));
    let chat_d = insert_entry(chat_c, "thinking"@, thinking_disabled());
    let chat_e = match lookup(es_d, "tools"@) {
        Some(JValue::Array(tools)) => insert_entry(
            chat_d,
            "tools"@,
            JValue::Array(tools_converted(tools)),
        ),
        Some(t) => insert_entry(chat_d, "tools"@, t),
        None => chat_d,
    };
    insert_all(chat_e, remove_key(es_d, "tools"@))
}

/// The views of an optional value.
pub open spec fn opt_jv(o: Option<Json>) -> Option<JValue> {
    match o {
        Some(v) => Some(v@),
        None => None,
    }
}

/// A Responses API request body in Chat Completions form; anything but an
/// object is left as it is.
pub open spec fn body_converted(body: JValue) -> JValue {
    match body {
        JValue::Object(es) => JValue::Object(body_entries_converted(es)),
        _ => body,
    }
}


// ---------------------------------------------------------------------------
// Building blocks
// ---------------------------------------------------------------------------

/// An owned copy of a string slice.
pub fn owned(s: &str) -> (r: String)
    ensures
        r@ == s@,
{
    s.to_owned()
}

/// A string value.
pub fn json_str(s: &str) -> (r: Json)
    ensures
        r@ == jstr(s@),
{
    Json::Str(owned(s))
}

/// An object value made of the given entries.
pub fn make_object(es: Vec<(String, Json)>) -> (r: Json)
    ensures
        r@ == JValue::Object(entries_view(es@)),
{
    proof {
        lemma_object_view(es);
    }
    Json::Object(es)
}

/// An array value made of the given items.
pub fn make_array(items: Vec<Json>) -> (r: Json)
    ensures
        r@ == JValue::Array(values_view(items@)),
{
    proof {
        lemma_array_view(items);
    }
    Json::Array(items)
}

/// The string member `k` of `v`, or the empty string.
pub fn str_member_or_empty(v: &Json, k: &str) -> (r: String)
    ensures
        r@ == str_or_empty(v@, k@),
{
    match v.get_str(k) {
        Some(s) => s.clone(),
        None => String::new(),
    }
}

/// The concatenation of the string `"text"` members of `items`.
pub fn join_texts(items: &Vec<Json>) -> (r: String)
    ensures
        r@ == joined_texts(values_view(items@)),
{
    let ghost vv = values_view(items@);
    let mut out = String::new();
    let mut i: usize = 0;
    while i < items.len()
        invariant
            i <= items.len(),
            vv == values_view(items@),
            out@ == joined_texts(vv.take(i as int)),
        decreases items.len() - i,
    {
        proof {
            assert(vv.take(i + 1).drop_last() =~= vv.take(i as int));
        }
        match items[i].get_str("text") {
            Some(t) => {
                out.append(t.as_str());
            },
            None => {},
        }
        i += 1;
    }
    proof {
        assert(vv.take(i as int) =~= vv);
    }
    out
}

/// The concatenation of the `"text"` members of the items whose type is `"text"`.
pub fn join_typed_texts(items: &Vec<Json>) -> (r: String)
    ensures
        r@ == joined_typed_texts(values_view(items@)),
{
    let ghost vv = values_view(items@);
    let mut out = String::new();
    let mut i: usize = 0;
    while i < items.len()
        invariant
            i <= items.len(),
            vv == values_view(items@),
            out@ == joined_typed_texts(vv.take(i as int)),
        decreases items.len() - i,
    {
        proof {
            assert(vv.take(i + 1).drop_last() =~= vv.take(i as int));
        }
        let is_text = match items[i].get_str("type") {
            Some(t) => str_eq(t.as_str(), "text"),
            None => false,
        };
        if is_text {
            match items[i].get_str("text") {
                Some(t) => {
                    out.append(t.as_str());
                },
                None => {},
            }
        }
        i += 1;
    }
    proof {
        assert(vv.take(i as int) =~= vv);
    }
    out
}

/// The Chat Completions name of a Responses content item type, if it has another one.
pub fn chat_content_type_exec(t: &str) -> (r: Option<&'static str>)
    ensures
        match r {
            Some(n) => chat_content_type(t@) == Some(n@),
            None => chat_content_type(t@) is None,
        },
{
    if str_eq(t, "input_text") || str_eq(t, "output_text") {
        Some("text")
    } else if str_eq(t, "input_image") {
        Some("image_url")
    } else {
        None
    }
}

/// One content item with its type renamed where the Chat API uses another name.
pub fn convert_content_item(item: &Json) -> (r: Json)
    ensures
        r@ == content_item_converted(item@),
{
    match item {
        Json::Object(es) => {
            proof {
                lemma_object_view(*es);
            }
            let renamed = match item.get_str("type") {
                Some(t) => chat_content_type_exec(t.as_str()),
                None => None,
            };
            match renamed {
                Some(n) => {
                    let mut es2 = clone_entries(es);
                    insert_entry_exec(&mut es2, owned("type"), json_str(n));
                    make_object(es2)
                },
                None => item.deep_clone(),
            }
        },
        _ => item.deep_clone(),
    }
}

/// A copy of a list of entries.
pub fn clone_entries(es: &Vec<(String, Json)>) -> (r: Vec<(String, Json)>)
    ensures
        entries_view(r@) == entries_view(es@),
{
    let mut out: Vec<(String, Json)> = Vec::new();
    let mut i: usize = 0;
    while i < es.len()
        invariant
            i <= es.len(),
            out@.len() == i,
            forall|j: int|
                0 <= j < i ==> (#[trigger] out@[j]).0@ == es@[j].0@ && out@[j].1@ == es@[j].1@,
        decreases es.len() - i,
    {
        out.push((es[i].0.clone(), es[i].1.deep_clone()));
        i += 1;
    }
    proof {
        assert(entries_view(out@) =~= entries_view(es@));
    }
    out
}

/// A copy of a list of values.
pub fn clone_values(items: &Vec<Json>) -> (r: Vec<Json>)
    ensures
        values_view(r@) == values_view(items@),
{
    let mut out: Vec<Json> = Vec::new();
    let mut i: usize = 0;
    while i < items.len()
        invariant
            i <= items.len(),
            out@.len() == i,
            forall|j: int| 0 <= j < i ==> (#[trigger] out@[j])@ == items@[j]@,
        decreases items.len() - i,
    {
        out.push(items[i].deep_clone());
        i += 1;
    }
    proof {
        assert(values_view(out@) =~= values_view(items@));
    }
    out
}

/// Rename the Responses content item types in a content value to their Chat
/// Completions names: `input_text` and `output_text` become `text`, and
/// `input_image` becomes `image_url`.
pub fn convert_content_types(content: &mut Json)
    ensures
        final(content)@ == content_types_converted(old(content)@),
{
    let converted = match &*content {
        Json::Array(items) => {
            let mut out: Vec<Json> = Vec::new();
            let mut i: usize = 0;
            while i < items.len()
                invariant
                    i <= items.len(),
                    out@.len() == i,
                    forall|j: int|
                        0 <= j < i ==> (#[trigger] out@[j])@ == content_item_converted(
                            items@[j]@,
                        ),
                decreases items.len() - i,
            {
                out.push(convert_content_item(&items[i]));
                i += 1;
            }
            proof {
                lemma_array_view(*items);
                assert(values_view(out@) =~= values_view(items@).map_values(
                    |it: JValue| content_item_converted(it),
                ));
            }
            make_array(out)
        },
        _ => content.deep_clone(),
    };
    *content = converted;
}

/// A one-entry object.
pub fn object1(k1: &str, v1: Json) -> (r: Json)
    ensures
        r@ == obj1(k1@, v1@),
{
    let ghost g1 = v1@;
    let mut es: Vec<(String, Json)> = Vec::new();
    es.push((owned(k1), v1));
    proof {
        assert(entries_view(es@) =~= seq![(k1@, g1)]);
    }
    make_object(es)
}

/// A two-entry object.
pub fn object2(k1: &str, v1: Json, k2: &str, v2: Json) -> (r: Json)
    ensures
        r@ == obj2(k1@, v1@, k2@, v2@),
{
    let ghost g1 = v1@;
    let ghost g2 = v2@;
    let mut es: Vec<(String, Json)> = Vec::new();
    es.push((owned(k1), v1));
    es.push((owned(k2), v2));
    proof {
        assert(entries_view(es@) =~= seq![(k1@, g1), (k2@, g2)]);
    }
    make_object(es)
}

/// A three-entry object.
pub fn object3(k1: &str, v1: Json, k2: &str, v2: Json, k3: &str, v3: Json) -> (r: Json)
    ensures
        r@ == obj3(k1@, v1@, k2@, v2@, k3@, v3@),
{
    let ghost g1 = v1@;
    let ghost g2 = v2@;
    let ghost g3 = v3@;
    let mut es: Vec<(String, Json)> = Vec::new();
    es.push((owned(k1), v1));
    es.push((owned(k2), v2));
    es.push((owned(k3), v3));
    proof {
        assert(entries_view(es@) =~= seq![(k1@, g1), (k2@, g2), (k3@, g3)]);
    }
    make_object(es)
}

/// The assistant message with one tool call that stands for a Responses
/// `function_call` item.
pub fn function_call_to_message(item: &Json) -> (r: Json)
    ensures
        r@ == function_call_message(item@),
{
    let call_id = str_member_or_empty(item, "call_id");
    let name = str_member_or_empty(item, "name");
    let arguments = str_member_or_empty(item, "arguments");
    let func = object2("name", Json::Str(name), "arguments", Json::Str(arguments));
    let call = object3("id", Json::Str(call_id), "type", json_str("function"), "function", func);
    let ghost gc = call@;
    let mut calls: Vec<Json> = Vec::new();
    calls.push(call);
    proof {
        assert(values_view(calls@) =~= seq![gc]);
    }
    let calls = make_array(calls);
    object3("role", json_str("assistant"), "content", Json::Null, "tool_calls", calls)
}

/// The text of a `function_call_output` item's output.
pub fn tool_output_text_exec(item: &Json) -> (r: String)
    ensures
        r@ == tool_output_text(item@),
{
    match item.get("output") {
        Some(Json::Str(s)) => s.clone(),
        Some(Json::Array(a)) => {
            proof {
                lemma_array_view(*a);
            }
            join_texts(a)
        },
        _ => String::new(),
    }
}

/// The `tool` message that stands for a Responses `function_call_output` item.
pub fn function_call_output_to_message(item: &Json) -> (r: Json)
    ensures
        r@ == tool_result_message(item@),
{
    let call_id = str_member_or_empty(item, "call_id");
    let output = tool_output_text_exec(item);
    object3("role", json_str("tool"), "tool_call_id", Json::Str(call_id), "content", Json::Str(output))
}

/// The text carried by a Responses `reasoning` item.
pub fn reasoning_text_exec(item: &Json) -> (r: String)
    ensures
        r@ == reasoning_text(item@),
{
    match item.get("content") {
        Some(Json::Array(a)) => {
            proof {
                lemma_array_view(*a);
            }
            join_texts(a)
        },
        _ => String::new(),
    }
}

/// Reasoning text waiting for the next assistant message, after `text` is added.
pub fn add_pending_reasoning(pending: Option<String>, text: String) -> (r: Option<String>)
    ensures
        opt_view(r) == pending_after_reasoning(opt_view(pending), text@),
{
    if !text.as_str().is_empty() {
        match pending {
            Some(p) => {
                let mut p = p;
                p.append(text.as_str());
                Some(p)
            },
            None => Some(text),
        }
    } else {
        pending
    }
}

/// The prefix put before the content of a `tool` message turned into a `user` one.
pub fn tool_result_prefix_exec(call_id: Option<&String>) -> (r: String)
    ensures
        r@ == tool_result_prefix(
            match call_id {
                Some(s) => Some(s@),
                None => None,
            },
        ),
{
    match call_id {
        Some(id) => {
            let mut p = owned("[Tool result for ");
            p.append(id.as_str());
            p.append("]\n");
            p
        },
        None => String::new(),
    }
}

/// Whether a value is the string `lit`.
pub fn is_str(v: Option<&Json>, lit: &str) -> (r: bool)
    ensures
        r == (match v {
            Some(x) => x@.as_str() == Some(lit@),
            None => false,
        }),
{
    match v {
        Some(x) => match x.as_str() {
            Some(s) => str_eq(s.as_str(), lit),
            None => false,
        },
        None => false,
    }
}

/// The entries of a chat message after its role is mapped.
pub fn convert_role(es: &Vec<(String, Json)>) -> (r: Vec<(String, Json)>)
    ensures
        entries_view(r@) == role_converted(entries_view(es@)),
{
    let role = lookup_entry(es, "role");
    if is_str(role, "developer") {
        let mut es1 = clone_entries(es);
        insert_entry_exec(&mut es1, owned("role"), json_str("system"));
        es1
    } else if is_str(role, "tool") {
        let mut es1 = clone_entries(es);
        insert_entry_exec(&mut es1, owned("role"), json_str("user"));
        let prefix = {
            let id = match lookup_entry(&es1, "tool_call_id") {
                Some(v) => v.as_str(),
                None => None,
            };
            proof {
                lemma_object_view(es1);
            }
            tool_result_prefix_exec(id)
        };
        let new_content = match lookup_entry(&es1, "content") {
            Some(Json::Str(s)) => {
                let mut t = prefix;
                t.append(s.as_str());
                Some(t)
            },
            Some(Json::Array(a)) => {
                proof {
                    lemma_array_view(*a);
                }
                let mut t = prefix;
                let joined = join_texts(a);
                t.append(joined.as_str());
                Some(t)
            },
            _ => None,
        };
        match new_content {
            Some(t) => {
                insert_entry_exec(&mut es1, owned("content"), Json::Str(t));
            },
            None => {},
        }
        es1
    } else {
        clone_entries(es)
    }
}

/// The content of a chat message after conversion.
pub fn convert_content(content: &Json, assistant: bool) -> (r: Json)
    ensures
        r@ == content_converted(content@, assistant),
{
    let mut c = content.deep_clone();
    convert_content_types(&mut c);
    if assistant {
        let flat = match &c {
            Json::Array(items) => {
                proof {
                    lemma_array_view(*items);
                }
                let t = join_typed_texts(items);
                if !t.as_str().is_empty() {
                    Some(t)
                } else {
                    None
                }
            },
            _ => None,
        };
        match flat {
            Some(t) => Json::Str(t),
            None => c,
        }
    } else {
        c
    }
}

/// A message with a role: role mapping, pending reasoning attached to an
/// assistant message, and content conversion.
pub fn convert_chat_message(es: &Vec<(String, Json)>, pending: Option<String>) -> (r: (
    Json,
    Option<String>,
))
    ensures
        (r.0@, opt_view(r.1)) == chat_message_converted(entries_view(es@), opt_view(pending)),
{
    let mut es1 = convert_role(es);
    let assistant = is_str(lookup_entry(&es1, "role"), "assistant");
    proof {
        lemma_object_view(es1);
    }
    let mut pending2 = pending;
    if assistant && pending2.is_some() {
        let p = pending2.take().unwrap();
        insert_entry_exec(&mut es1, owned("reasoning_content"), Json::Str(p));
    }
    let content = match lookup_entry(&es1, "content") {
        Some(c) => Some(convert_content(c, assistant)),
        None => None,
    };
    match content {
        Some(c) => {
            insert_entry_exec(&mut es1, owned("content"), c);
        },
        None => {},
    }
    (make_object(es1), pending2)
}

/// One Responses input item in Chat Completions form, given the reasoning
/// text still waiting for an assistant message; gives back the new waiting text.
pub fn convert_message(msg: &Json, pending: Option<String>) -> (r: (Json, Option<String>))
    ensures
        (r.0@, opt_view(r.1)) == message_converted(msg@, opt_view(pending)),
{
    match msg {
        Json::Object(es) => {
            proof {
                lemma_object_view(*es);
            }
            let t = msg.get_str("type");
            let is_call = match t {
                Some(t) => str_eq(t.as_str(), "function_call"),
                None => false,
            };
            let is_output = match t {
                Some(t) => str_eq(t.as_str(), "function_call_output"),
                None => false,
            };
            let is_reasoning = match t {
                Some(t) => str_eq(t.as_str(), "reasoning"),
                None => false,
            };
            if is_call {
                (function_call_to_message(msg), pending)
            } else if is_output {
                (function_call_output_to_message(msg), pending)
            } else if is_reasoning {
                let text = reasoning_text_exec(msg);
                let pending2 = add_pending_reasoning(pending, text);
                (object1("__remove__", Json::Bool(true)), pending2)
            } else {
                convert_chat_message(es, pending)
            }
        },
        _ => (msg.deep_clone(), pending),
    }
}

/// All input items converted front to back, with the reasoning text left waiting.
pub fn convert_messages(items: &Vec<Json>) -> (r: (Vec<Json>, Option<String>))
    ensures
        (values_view(r.0@), opt_view(r.1)) == messages_converted(values_view(items@)),
{
    let ghost vv = values_view(items@);
    let mut out: Vec<Json> = Vec::new();
    let mut pending: Option<String> = None;
    let mut i: usize = 0;
    while i < items.len()
        invariant
            i <= items.len(),
            vv == values_view(items@),
            (values_view(out@), opt_view(pending)) == messages_converted(vv.take(i as int)),
        decreases items.len() - i,
    {
        proof {
            assert(vv.take(i + 1).drop_last() =~= vv.take(i as int));
        }
        let ghost before = values_view(out@);
        let (m, p) = convert_message(&items[i], pending);
        let ghost gm = m@;
        out.push(m);
        pending = p;
        proof {
            assert(values_view(out@) =~= before.push(gm));
        }
        i += 1;
    }
    proof {
        assert(vv.take(i as int) =~= vv);
    }
    (out, pending)
}

/// Whether an item carries the removal marker.
pub fn is_marked_exec(m: &Json) -> (r: bool)
    ensures
        r == is_marked(m@),
{
    match m {
        Json::Object(_) => m.get("__remove__").is_some(),
        _ => false,
    }
}

/// The items without the marked ones.
pub fn drop_marked(items: &Vec<Json>) -> (r: Vec<Json>)
    ensures
        values_view(r@) == unmarked(values_view(items@)),
{
    let ghost vv = values_view(items@);
    let mut out: Vec<Json> = Vec::new();
    let mut i: usize = 0;
    while i < items.len()
        invariant
            i <= items.len(),
            vv == values_view(items@),
            values_view(out@) == unmarked(vv.take(i as int)),
        decreases items.len() - i,
    {
        proof {
            assert(vv.take(i + 1).drop_last() =~= vv.take(i as int));
        }
        if !is_marked_exec(&items[i]) {
            let ghost before = values_view(out@);
            let c = items[i].deep_clone();
            let ghost gc = c@;
            out.push(c);
            proof {
                assert(values_view(out@) =~= before.push(gc));
            }
        }
        i += 1;
    }
    proof {
        assert(vv.take(i as int) =~= vv);
    }
    out
}

/// Whether a message is an assistant message with tool calls.
pub fn is_assistant_with_tools_exec(m: &Json) -> (r: bool)
    ensures
        r == is_assistant_with_tools(m@),
{
    is_str(m.get("role"), "assistant") && m.get("tool_calls").is_some()
}

/// `cur`'s tool calls appended to `last`'s, and `cur`'s content taken when
/// `last` has none.
pub fn merge_pair(last: &Json, cur: &Json) -> (r: Json)
    ensures
        r@ == merged_pair(last@, cur@),
{
    match (last, cur) {
        (Json::Object(les), Json::Object(ces)) => {
            proof {
                lemma_object_view(*les);
                lemma_object_view(*ces);
            }
            let mut l = clone_entries(les);
            let calls = match (lookup_entry(les, "tool_calls"), lookup_entry(ces, "tool_calls")) {
                (Some(Json::Array(a)), Some(Json::Array(b))) => {
                    proof {
                        lemma_array_view(*a);
                        lemma_array_view(*b);
                    }
                    let mut v = clone_values(a);
                    let mut w = clone_values(b);
                    let ghost va = values_view(v@);
                    let ghost wb = values_view(w@);
                    v.append(&mut w);
                    proof {
                        assert(values_view(v@) =~= va + wb);
                    }
                    Some(make_array(v))
                },
                _ => None,
            };
            match calls {
                Some(c) => {
                    insert_entry_exec(&mut l, owned("tool_calls"), c);
                },
                None => {},
            }
            let take_cur = match lookup_entry(&l, "content") {
                Some(v) => v.is_null(),
                None => true,
            };
            if take_cur {
                match lookup_entry(ces, "content") {
                    Some(cc) => {
                        insert_entry_exec(&mut l, owned("content"), cc.deep_clone());
                    },
                    None => {},
                }
            }
            make_object(l)
        },
        _ => last.deep_clone(),
    }
}

/// Runs of assistant messages with tool calls merged into one message each.
pub fn merge_tool_call_messages(items: &Vec<Json>) -> (r: Vec<Json>)
    ensures
        values_view(r@) == merged_messages(values_view(items@)),
{
    let ghost vv = values_view(items@);
    let mut out: Vec<Json> = Vec::new();
    let mut i: usize = 0;
    while i < items.len()
        invariant
            i <= items.len(),
            vv == values_view(items@),
            values_view(out@) == merged_messages(vv.take(i as int)),
        decreases items.len() - i,
    {
        proof {
            assert(vv.take(i + 1).drop_last() =~= vv.take(i as int));
        }
        let ghost before = values_view(out@);
        let cur = &items[i];
        let n = out.len();
        if is_assistant_with_tools_exec(cur) && n > 0 && is_assistant_with_tools_exec(&out[n - 1]) {
            let m = merge_pair(&out[n - 1], cur);
            let ghost gm = m@;
            out.set(n - 1, m);
            proof {
                assert(values_view(out@) =~= before.update(n - 1, gm));
            }
        } else {
            let c = cur.deep_clone();
            let ghost gc = c@;
            out.push(c);
            proof {
                assert(values_view(out@) =~= before.push(gc));
            }
        }
        i += 1;
    }
    proof {
        assert(vv.take(i as int) =~= vv);
    }
    out
}

/// The Chat Completions `messages` for a Responses `input` and its `instructions`.
pub fn build_chat_messages(input: Json, instructions: Option<Json>) -> (r: Vec<Json>)
    ensures
        values_view(r@) == chat_messages(input@, opt_jv(instructions)),
{
    let ghost gi = input@;
    let items: Vec<Json> = match input {
        Json::Array(items) => {
            proof {
                lemma_array_view(items);
            }
            items
        },
        other => {
            let mut v: Vec<Json> = Vec::new();
            v.push(other);
            proof {
                assert(values_view(v@) =~= seq![gi]);
            }
            v
        },
    };
    let (converted, _) = convert_messages(&items);
    let kept = drop_marked(&converted);
    let merged = merge_tool_call_messages(&kept);
    let system = match &instructions {
        Some(Json::Str(t)) => {
            if !t.as_str().is_empty() {
                Some(object2("role", json_str("system"), "content", Json::Str(t.clone())))
            } else {
                None
            }
        },
        _ => None,
    };
    match system {
        Some(sm) => {
            let ghost gs = sm@;
            let mut out: Vec<Json> = Vec::new();
            out.push(sm);
            let mut rest = merged;
            let ghost gr = values_view(rest@);
            out.append(&mut rest);
            proof {
                assert(values_view(out@) =~= seq![gs] + gr);
            }
            out
        },
        None => merged,
    }
}

/// Every entry of `es` inserted, in order, into `acc`.
pub fn insert_all_exec(acc: &mut Vec<(String, Json)>, es: &Vec<(String, Json)>)
    ensures
        entries_view(final(acc)@) == insert_all(entries_view(old(acc)@), entries_view(es@)),
{
    let ghost ev = entries_view(es@);
    let ghost a0 = entries_view(acc@);
    let mut i: usize = 0;
    while i < es.len()
        invariant
            i <= es.len(),
            ev == entries_view(es@),
            entries_view(acc@) == insert_all(a0, ev.take(i as int)),
        decreases es.len() - i,
    {
        proof {
            assert(ev.take(i + 1).drop_last() =~= ev.take(i as int));
        }
        insert_entry_exec(acc, es[i].0.clone(), es[i].1.deep_clone());
        i += 1;
    }
    proof {
        assert(ev.take(i as int) =~= ev);
    }
}

/// The member `k`, or null.
pub fn member_or_null_exec(es: &Vec<(String, Json)>, k: &str) -> (r: Json)
    ensures
        r@ == member_or_null(entries_view(es@), k@),
{
    match lookup_entry(es, k) {
        Some(v) => v.deep_clone(),
        None => Json::Null,
    }
}

/// A Responses tool in Chat Completions form; `None` for anything but a function tool.
pub fn convert_tool(tool: &Json) -> (r: Option<Json>)
    ensures
        opt_jv(r) == tool_converted(tool@),
{
    match tool {
        Json::Object(es) => {
            proof {
                lemma_object_view(*es);
            }
            if is_str(tool.get("type"), "function") {
                let ghost ev = entries_view(es@);
                let name = member_or_null_exec(es, "name");
                let description = member_or_null_exec(es, "description");
                let parameters = member_or_null_exec(es, "parameters");
                let strict = member_or_null_exec(es, "strict");
                let ghost (g1, g2, g3, g4) = (name@, description@, parameters@, strict@);
                let mut f: Vec<(String, Json)> = Vec::new();
                f.push((owned("name"), name));
                f.push((owned("description"), description));
                f.push((owned("parameters"), parameters));
                f.push((owned("strict"), strict));
                proof {
                    assert(entries_view(f@) =~= seq![
                        ("name"@, g1),
                        ("description"@, g2),
                        ("parameters"@, g3),
                        ("strict"@, g4),
                    ]);
                }
                let func = make_object(f);
                let ghost gf = func@;
                let t = json_str("function");
                let ghost gt = t@;
                let mut chat: Vec<(String, Json)> = Vec::new();
                chat.push((owned("type"), t));
                chat.push((owned("function"), func));
                proof {
                    assert(entries_view(chat@) =~= seq![("type"@, gt), ("function"@, gf)]);
                }
                let mut extra = clone_entries(es);
                remove_key_exec(&mut extra, "type");
                remove_key_exec(&mut extra, "name");
                remove_key_exec(&mut extra, "description");
                remove_key_exec(&mut extra, "parameters");
                remove_key_exec(&mut extra, "strict");
                insert_all_exec(&mut chat, &extra);
                Some(make_object(chat))
            } else {
                None
            }
        },
        _ => None,
    }
}

/// The function tools of a list in Chat Completions form; other tools are dropped.
pub fn convert_tools(tools: &Vec<Json>) -> (r: Vec<Json>)
    ensures
        values_view(r@) == tools_converted(values_view(tools@)),
{
    let ghost vv = values_view(tools@);
    let mut out: Vec<Json> = Vec::new();
    let mut i: usize = 0;
    while i < tools.len()
        invariant
            i <= tools.len(),
            vv == values_view(tools@),
            values_view(out@) == tools_converted(vv.take(i as int)),
        decreases tools.len() - i,
    {
        proof {
            assert(vv.take(i + 1).drop_last() =~= vv.take(i as int));
        }
        match convert_tool(&tools[i]) {
            Some(t) => {
                let ghost before = values_view(out@);
                let ghost gt = t@;
                out.push(t);
                proof {
                    assert(values_view(out@) =~= before.push(gt));
                }
            },
            None => {},
        }
        i += 1;
    }
    proof {
        assert(vv.take(i as int) =~= vv);
    }
    out
}

/// The members of a Responses request object in Chat Completions form.
pub fn convert_body_entries(es: Vec<(String, Json)>) -> (r: Vec<(String, Json)>)
    ensures
        entries_view(r@) == body_entries_converted(entries_view(es@)),
{
    let mut es = es;
    let mut chat: Vec<(String, Json)> = Vec::new();
    proof {
        assert(entries_view(chat@) =~= Seq::empty());
    }
    match remove_key_exec(&mut es, "input") {
        Some(input) => {
            let instructions = remove_key_exec(&mut es, "instructions");
            let messages = make_array(build_chat_messages(input, instructions));
            let ghost gm = messages@;
            chat.push((owned("messages"), messages));
            proof {
                assert(entries_view(chat@) =~= seq![("messages"@, gm)]);
            }
        },
        None => {},
    }
    match remove_key_exec(&mut es, "max_output_tokens") {
        Some(m) => {
            insert_entry_exec(&mut chat, owned("max_tokens"), m);
        },
        None => {},
    }
    match remove_key_exec(&mut es, "text") {
        Some(t) => match t.get("format") {
            Some(f) => {
                insert_entry_exec(&mut chat, owned("response_format"), f.deep_clone());
            },
            None => {},
        },
        None => {},
    }
    remove_key_exec(&mut es, "store");
    remove_key_exec(&mut es, "include");
    remove_key_exec(&mut es, "prompt_cache_key");
    remove_key_exec(&mut es, "service_tier");
    remove_key_exec(&mut es, "client_metadata");
    remove_key_exec(&mut es, "reasoning");
    remove_key_exec(&mut es, "parallel_tool_calls");
    insert_entry_exec(&mut chat, owned("thinking"), object1("type", json_str("disabled")));
    match remove_key_exec(&mut es, "tools") {
        Some(Json::Array(tools)) => {
            proof {
                lemma_array_view(tools);
            }
            let converted = make_array(convert_tools(&tools));
            insert_entry_exec(&mut chat, owned("tools"), converted);
        },
        Some(other) => {
            insert_entry_exec(&mut chat, owned("tools"), other);
        },
        None => {},
    }
    insert_all_exec(&mut chat, &es);
    chat
}

/// Turn a Responses API request body into a Chat Completions request body:
/// `input` becomes `messages` (with `instructions` as a leading system
/// message), `max_output_tokens` becomes `max_tokens`, `text.format` becomes
/// `response_format`, function tools get the nested Chat form, members the
/// Chat API does not take are dropped, thinking mode is turned off, and every
/// other member is passed through.  Anything but an object is left alone.
pub fn convert_request_body(body: &mut Json)
    ensures
        final(body)@ == body_converted(old(body)@),
{
    let mut taken = Json::Null;
    std::mem::swap(&mut taken, body);
    match taken {
        Json::Object(es) => {
            proof {
                lemma_object_view(es);
            }
            *body = make_object(convert_body_entries(es));
        },
        other => {
            *body = other;
        },
    }
}

// ---------------------------------------------------------------------------
// Laws
// ---------------------------------------------------------------------------

/// Looking a key up after inserting a list of entries.
pub proof fn lemma_lookup_insert_all(acc: Entries, es: Entries, k: Seq<char>)
    ensures
        lacks_key(es, k) ==> lookup(insert_all(acc, es), k) == lookup(acc, k),
        unique_keys(es) && lookup(es, k) is Some ==> lookup(insert_all(acc, es), k) == lookup(
            es,
            k,
        ),
    decreases es.len(),
{
    if es.len() > 0 {
        let d = es.drop_last();
        assert forall|i: int, j: int| 0 <= i < j < d.len() && unique_keys(es) implies d[i].0
            != d[j].0 by {
            assert(d[i] == es[i] && d[j] == es[j]);
        }
        assert forall|i: int| 0 <= i < d.len() && lacks_key(es, k) implies (#[trigger] d[i]).0
            != k by {
            assert(d[i] == es[i]);
        }
        lemma_lookup_insert_all(acc, d, k);
        lemma_lookup_insert(insert_all(acc, d), es.last().0, es.last().1, k);
        crate::json::lemma_key_index_bounds(es, k);
        crate::json::lemma_key_index_bounds(d, k);
        assert(es[es.len() - 1] == es.last());
        if unique_keys(es) && es.last().0 == k {
            assert forall|j: int| 0 <= j < d.len() implies d[j].0 != k by {
                assert(d[j] == es[j]);
            }
        }
    }
}

/// The members of a Responses request that the Chat request never carries.
pub open spec fn responses_only_member(k: Seq<char>) -> bool {
    ||| k == "input"@
    ||| k == "max_output_tokens"@
    ||| k == "text"@
    ||| k == "store"@
    ||| k == "include"@
    ||| k == "prompt_cache_key"@
    ||| k == "service_tier"@
    ||| k == "client_metadata"@
    ||| k == "reasoning"@
    ||| k == "parallel_tool_calls"@
}

/// The members the converted body builds itself.
pub open spec fn chat_built_member(k: Seq<char>) -> bool {
    ||| k == "messages"@
    ||| k == "max_tokens"@
    ||| k == "response_format"@
    ||| k == "thinking"@
    ||| k == "tools"@
}

/// The request members that are passed through: the request with the
/// converted and dropped members removed.
pub open spec fn passed_members(es: Entries) -> Entries {
    let es_a = remove_key(es, "input"@);
    let es_b = if lookup(es, "input"@) is Some {
        remove_key(es_a, "instructions"@)
    } else {
        es_a
    };
    remove_key(
        unsupported_members_removed(remove_key(remove_key(es_b, "max_output_tokens"@), "text"@)),
        "tools"@,
    )
}

/// The members the converted body builds, before the passed ones go in.
pub open spec fn built_members(es: Entries) -> Entries {
    let input = lookup(es, "input"@);
    let es_a = remove_key(es, "input"@);
    let (chat_a, es_b) = match input {
        Some(inp) => (
            seq![
                ("messages"@, JValue::Array(chat_messages(inp, lookup(es_a, "instructions"@)))),
            ],
            remove_key(es_a, "instructions"@),
        ),
        None => (Seq::empty(), es_a),
    };
    let chat_b = match lookup(es_b, "max_output_tokens"@) {
        Some(m) => insert_entry(chat_a, "max_tokens"@, m),
        None => chat_a,
    };
    let es_c = remove_key(es_b, "max_output_tokens"@);
    let chat_c = match lookup(es_c, "text"@) {
        Some(t) => match t.get("format"@) {
            Some(f) => insert_entry(chat_b, "response_format"@, f),
            None => chat_b,
        },
        None => chat_b,
    };
    let es_d = unsupported_members_removed(remove_key(es_c, "text"@));
    let chat_d = insert_entry(chat_c, "thinking"@, thinking_disabled());
    match lookup(es_d, "tools"@) {
        Some(JValue::Array(tools)) => insert_entry(
            chat_d,
            "tools"@,
            JValue::Array(tools_converted(tools)),
        ),
        Some(t) => insert_entry(chat_d, "tools"@, t),
        None => chat_d,
    }
}

/// The converted body is the built members with the passed ones put over them.
pub proof fn lemma_body_split(es: Entries)
    ensures
        body_entries_converted(es) == insert_all(built_members(es), passed_members(es)),
        forall|k: Seq<char>| #[trigger] lookup(passed_members(es), k) == if responses_only_member(k)
            || k == "tools"@ || (k == "instructions"@ && lookup(es, "input"@) is Some) {
            None
        } else {
            lookup(es, k)
        },
        forall|k: Seq<char>| !chat_built_member(k) ==> #[trigger] lookup(built_members(es), k) is None,
        lookup(es, "thinking"@) is None ==> lookup(built_members(es), "thinking"@) == Some(
            thinking_disabled(),
        ),
{
    let es_a = remove_key(es, "input"@);
    let es_b = if lookup(es, "input"@) is Some {
        remove_key(es_a, "instructions"@)
    } else {
        es_a
    };
    let es_c = remove_key(es_b, "max_output_tokens"@);
    let es_t = remove_key(es_c, "text"@);
    let es_d = unsupported_members_removed(es_t);
    assert forall|k: Seq<char>| #[trigger] lookup(passed_members(es), k) == if responses_only_member(k)
        || k == "tools"@ || (k == "instructions"@ && lookup(es, "input"@) is Some) {
        None
    } else {
        lookup(es, k)
    } by {
        lemma_lookup_remove(es, "input"@, k);
        lemma_lookup_remove(es_a, "instructions"@, k);
        lemma_lookup_remove(es_b, "max_output_tokens"@, k);
        lemma_lookup_remove(es_c, "text"@, k);
        let r1 = remove_key(es_t, "store"@);
        let r2 = remove_key(r1, "include"@);
        let r3 = remove_key(r2, "prompt_cache_key"@);
        let r4 = remove_key(r3, "service_tier"@);
        let r5 = remove_key(r4, "client_metadata"@);
        let r6 = remove_key(r5, "reasoning"@);
        lemma_lookup_remove(es_t, "store"@, k);
        lemma_lookup_remove(r1, "include"@, k);
        lemma_lookup_remove(r2, "prompt_cache_key"@, k);
        lemma_lookup_remove(r3, "service_tier"@, k);
        lemma_lookup_remove(r4, "client_metadata"@, k);
        lemma_lookup_remove(r5, "reasoning"@, k);
        lemma_lookup_remove(r6, "parallel_tool_calls"@, k);
        lemma_lookup_remove(es_d, "tools"@, k);
    }
    let input = lookup(es, "input"@);
    let chat_a: Entries = match input {
        Some(inp) => seq![
            ("messages"@, JValue::Array(chat_messages(inp, lookup(es_a, "instructions"@)))),
        ],
        None => Seq::empty(),
    };
    let chat_b = match lookup(es_b, "max_output_tokens"@) {
        Some(m) => insert_entry(chat_a, "max_tokens"@, m),
        None => chat_a,
    };
    let chat_c = match lookup(es_c, "text"@) {
        Some(t) => match t.get("format"@) {
            Some(f) => insert_entry(chat_b, "response_format"@, f),
            None => chat_b,
        },
        None => chat_b,
    };
    let chat_d = insert_entry(chat_c, "thinking"@, thinking_disabled());
    assert forall|k: Seq<char>| !chat_built_member(k) implies #[trigger] lookup(built_members(es), k)
        is None by {
        crate::json::lemma_key_index_bounds(chat_a, k);
        match lookup(es_b, "max_output_tokens"@) {
            Some(m) => lemma_lookup_insert(chat_a, "max_tokens"@, m, k),
            None => {},
        }
        match lookup(es_c, "text"@) {
            Some(t) => match t.get("format"@) {
                Some(f) => lemma_lookup_insert(chat_b, "response_format"@, f, k),
                None => {},
            },
            None => {},
        }
        lemma_lookup_insert(chat_c, "thinking"@, thinking_disabled(), k);
        match lookup(es_d, "tools"@) {
            Some(JValue::Array(tools)) => lemma_lookup_insert(
                chat_d,
                "tools"@,
                JValue::Array(tools_converted(tools)),
                k,
            ),
            Some(t) => lemma_lookup_insert(chat_d, "tools"@, t, k),
            None => {},
        }
    }
    lemma_lookup_insert(chat_c, "thinking"@, thinking_disabled(), "thinking"@);
    reveal_strlit("thinking");
    reveal_strlit("tools");
    assert("thinking"@ != "tools"@) by {
        assert("thinking"@.len() != "tools"@.len());
    }
    assert(built_members(es) == match lookup(es_d, "tools"@) {
        Some(JValue::Array(tools)) => insert_entry(
            chat_d,
            "tools"@,
            JValue::Array(tools_converted(tools)),
        ),
        Some(t) => insert_entry(chat_d, "tools"@, t),
        None => chat_d,
    });
    match lookup(es_d, "tools"@) {
        Some(JValue::Array(tools)) => lemma_lookup_insert(
            chat_d,
            "tools"@,
            JValue::Array(tools_converted(tools)),
            "thinking"@,
        ),
        Some(t) => lemma_lookup_insert(chat_d, "tools"@, t, "thinking"@),
        None => {},
    }
}

/// The Responses-only members (`input`, `max_output_tokens`, `text`, and the
/// members a Chat endpoint does not take) never appear in a converted body.
pub proof fn law_responses_members_are_dropped(es: Entries, k: Seq<char>)
    requires
        responses_only_member(k),
    ensures
        lookup(body_entries_converted(es), k) is None,
{
    reveal_strlit("input");
    reveal_strlit("max_output_tokens");
    reveal_strlit("text");
    reveal_strlit("store");
    reveal_strlit("include");
    reveal_strlit("prompt_cache_key");
    reveal_strlit("service_tier");
    reveal_strlit("client_metadata");
    reveal_strlit("reasoning");
    reveal_strlit("parallel_tool_calls");
    reveal_strlit("messages");
    reveal_strlit("max_tokens");
    reveal_strlit("response_format");
    reveal_strlit("thinking");
    reveal_strlit("tools");
    assert("messages"@.len() == 8 && "max_tokens"@.len() == 10 && "response_format"@.len() == 15
        && "thinking"@.len() == 8 && "tools"@.len() == 5);
    if k == "input"@ {
        assert(k.len() == 5); assert(k[0] != "tools"@[0]);
    }
    if k == "max_output_tokens"@ {
        assert(k.len() == 17);
    }
    if k == "text"@ {
        assert(k.len() == 4);
    }
    if k == "store"@ {
        assert(k.len() == 5); assert(k[0] != "tools"@[0]);
    }
    if k == "include"@ {
        assert(k.len() == 7);
    }
    if k == "prompt_cache_key"@ {
        assert(k.len() == 16);
    }
    if k == "service_tier"@ {
        assert(k.len() == 12);
    }
    if k == "client_metadata"@ {
        assert(k.len() == 15); assert(k[0] != "response_format"@[0]);
    }
    if k == "reasoning"@ {
        assert(k.len() == 9);
    }
    if k == "parallel_tool_calls"@ {
        assert(k.len() == 19);
    }
    lemma_body_split(es);
    assert(!chat_built_member(k));
    assert(lookup(passed_members(es), k) is None);
    lemma_lacks_key_lookup(passed_members(es), k);
    lemma_lookup_insert_all(built_members(es), passed_members(es), k);
}

/// Every other member of a request (a model, a temperature, a tool choice,
/// ...) reaches the converted body with its value unchanged; `instructions`
/// does too when there is no `input`.
pub proof fn law_other_members_pass_through(es: Entries, k: Seq<char>)
    requires
        unique_keys(es),
        !responses_only_member(k),
        k != "tools"@,
        k == "instructions"@ ==> lookup(es, "input"@) is None,
        lookup(es, k) is Some,
    ensures
        lookup(body_entries_converted(es), k) == lookup(es, k),
{
    lemma_body_split(es);
    let es_a = remove_key(es, "input"@);
    let es_b = if lookup(es, "input"@) is Some {
        remove_key(es_a, "instructions"@)
    } else {
        es_a
    };
    let es_c = remove_key(es_b, "max_output_tokens"@);
    let es_t = remove_key(es_c, "text"@);
    lemma_remove_key_unique(es, "input"@);
    lemma_remove_key_unique(es_a, "instructions"@);
    lemma_remove_key_unique(es_b, "max_output_tokens"@);
    lemma_remove_key_unique(es_c, "text"@);
    let r1 = remove_key(es_t, "store"@);
    let r2 = remove_key(r1, "include"@);
    let r3 = remove_key(r2, "prompt_cache_key"@);
    let r4 = remove_key(r3, "service_tier"@);
    let r5 = remove_key(r4, "client_metadata"@);
    let r6 = remove_key(r5, "reasoning"@);
    lemma_remove_key_unique(es_t, "store"@);
    lemma_remove_key_unique(r1, "include"@);
    lemma_remove_key_unique(r2, "prompt_cache_key"@);
    lemma_remove_key_unique(r3, "service_tier"@);
    lemma_remove_key_unique(r4, "client_metadata"@);
    lemma_remove_key_unique(r5, "reasoning"@);
    lemma_remove_key_unique(r6, "parallel_tool_calls"@);
    lemma_remove_key_unique(unsupported_members_removed(es_t), "tools"@);
    assert(lookup(passed_members(es), k) == lookup(es, k));
    lemma_lookup_insert_all(built_members(es), passed_members(es), k);
}

/// The names of the members the conversion moves are all different.
proof fn lemma_member_names_differ()
    ensures
        "messages"@ != "max_tokens"@,
        "messages"@ != "response_format"@,
        "messages"@ != "thinking"@,
        "messages"@ != "tools"@,
        "max_tokens"@ != "response_format"@,
        "max_tokens"@ != "thinking"@,
        "max_tokens"@ != "tools"@,
        "response_format"@ != "thinking"@,
        "response_format"@ != "tools"@,
        !responses_only_member("messages"@),
        !responses_only_member("max_tokens"@),
        !responses_only_member("response_format"@),
        "input"@ != "instructions"@,
        "input"@ != "max_output_tokens"@,
        "input"@ != "text"@,
        "instructions"@ != "max_output_tokens"@,
        "instructions"@ != "text"@,
        "max_output_tokens"@ != "text"@,
        "messages"@ != "instructions"@,
        "max_tokens"@ != "instructions"@,
        "response_format"@ != "instructions"@,
{
    reveal_strlit("messages");
    reveal_strlit("max_tokens");
    reveal_strlit("response_format");
    reveal_strlit("thinking");
    reveal_strlit("tools");
    reveal_strlit("input");
    reveal_strlit("instructions");
    reveal_strlit("max_output_tokens");
    reveal_strlit("text");
    reveal_strlit("store");
    reveal_strlit("include");
    reveal_strlit("prompt_cache_key");
    reveal_strlit("service_tier");
    reveal_strlit("client_metadata");
    reveal_strlit("reasoning");
    reveal_strlit("parallel_tool_calls");
    assert("messages"@.len() == 8);
    assert("max_tokens"@.len() == 10);
    assert("response_format"@.len() == 15);
    assert("thinking"@.len() == 8);
    assert("tools"@.len() == 5);
    assert("input"@.len() == 5);
    assert("instructions"@.len() == 12);
    assert("max_output_tokens"@.len() == 17);
    assert("text"@.len() == 4);
    assert("store"@.len() == 5);
    assert("include"@.len() == 7);
    assert("prompt_cache_key"@.len() == 16);
    assert("service_tier"@.len() == 12);
    assert("client_metadata"@.len() == 15);
    assert("reasoning"@.len() == 9);
    assert("parallel_tool_calls"@.len() == 19);
    assert("messages"@[0] != "thinking"@[0]);
    assert("response_format"@[0] != "client_metadata"@[0]);
    assert("input"@[0] != "tools"@[0]);
    assert("instructions"@[1] != "service_tier"@[1]);
}

/// `input` becomes `messages` (with the instructions put in), `max_output_tokens`
/// becomes `max_tokens`, and the format of `text` becomes `response_format`;
/// a request that itself carries one of the new members keeps its own value.
pub proof fn law_members_are_renamed(es: Entries)
    ensures
        lookup(es, "messages"@) is None ==> lookup(body_entries_converted(es), "messages"@)
            == match lookup(es, "input"@) {
            Some(inp) => Some(JValue::Array(chat_messages(inp, lookup(es, "instructions"@)))),
            None => None,
        },
        lookup(es, "max_tokens"@) is None ==> lookup(body_entries_converted(es), "max_tokens"@)
            == lookup(es, "max_output_tokens"@),
        lookup(es, "response_format"@) is None ==> lookup(
            body_entries_converted(es),
            "response_format"@,
        ) == match lookup(es, "text"@) {
            Some(t) => t.get("format"@),
            None => None,
        },
{
    lemma_member_names_differ();
    lemma_body_split(es);
    let passed = passed_members(es);
    let built = built_members(es);
    assert(lookup(passed, "messages"@) == lookup(es, "messages"@));
    assert(lookup(passed, "max_tokens"@) == lookup(es, "max_tokens"@));
    assert(lookup(passed, "response_format"@) == lookup(es, "response_format"@));
    lemma_lacks_key_lookup(passed, "messages"@);
    lemma_lacks_key_lookup(passed, "max_tokens"@);
    lemma_lacks_key_lookup(passed, "response_format"@);
    lemma_lookup_insert_all(built, passed, "messages"@);
    lemma_lookup_insert_all(built, passed, "max_tokens"@);
    lemma_lookup_insert_all(built, passed, "response_format"@);

    let input = lookup(es, "input"@);
    let es_a = remove_key(es, "input"@);
    lemma_lookup_remove(es, "input"@, "instructions"@);
    lemma_lookup_remove(es, "input"@, "max_output_tokens"@);
    lemma_lookup_remove(es, "input"@, "text"@);
    let es_b = if input is Some {
        remove_key(es_a, "instructions"@)
    } else {
        es_a
    };
    lemma_lookup_remove(es_a, "instructions"@, "max_output_tokens"@);
    lemma_lookup_remove(es_a, "instructions"@, "text"@);
    let es_c = remove_key(es_b, "max_output_tokens"@);
    lemma_lookup_remove(es_b, "max_output_tokens"@, "text"@);
    let chat_a: Entries = match input {
        Some(inp) => seq![
            ("messages"@, JValue::Array(chat_messages(inp, lookup(es_a, "instructions"@)))),
        ],
        None => Seq::empty(),
    };
    crate::json::lemma_key_index_bounds(chat_a, "messages"@);
    crate::json::lemma_key_index_bounds(chat_a, "max_tokens"@);
    crate::json::lemma_key_index_bounds(chat_a, "response_format"@);
    let chat_b = match lookup(es_b, "max_output_tokens"@) {
        Some(m) => insert_entry(chat_a, "max_tokens"@, m),
        None => chat_a,
    };
    match lookup(es_b, "max_output_tokens"@) {
        Some(m) => {
            lemma_lookup_insert(chat_a, "max_tokens"@, m, "messages"@);
            lemma_lookup_insert(chat_a, "max_tokens"@, m, "max_tokens"@);
            lemma_lookup_insert(chat_a, "max_tokens"@, m, "response_format"@);
        },
        None => {},
    }
    let chat_c = match lookup(es_c, "text"@) {
        Some(t) => match t.get("format"@) {
            Some(f) => insert_entry(chat_b, "response_format"@, f),
            None => chat_b,
        },
        None => chat_b,
    };
    match lookup(es_c, "text"@) {
        Some(t) => match t.get("format"@) {
            Some(f) => {
                lemma_lookup_insert(chat_b, "response_format"@, f, "messages"@);
                lemma_lookup_insert(chat_b, "response_format"@, f, "max_tokens"@);
                lemma_lookup_insert(chat_b, "response_format"@, f, "response_format"@);
            },
            None => {},
        },
        None => {},
    }
    let chat_d = insert_entry(chat_c, "thinking"@, thinking_disabled());
    lemma_lookup_insert(chat_c, "thinking"@, thinking_disabled(), "messages"@);
    lemma_lookup_insert(chat_c, "thinking"@, thinking_disabled(), "max_tokens"@);
    lemma_lookup_insert(chat_c, "thinking"@, thinking_disabled(), "response_format"@);
    let es_d = unsupported_members_removed(remove_key(es_c, "text"@));
    match lookup(es_d, "tools"@) {
        Some(JValue::Array(tools)) => {
            let t = JValue::Array(tools_converted(tools));
            lemma_lookup_insert(chat_d, "tools"@, t, "messages"@);
            lemma_lookup_insert(chat_d, "tools"@, t, "max_tokens"@);
            lemma_lookup_insert(chat_d, "tools"@, t, "response_format"@);
        },
        Some(t) => {
            lemma_lookup_insert(chat_d, "tools"@, t, "messages"@);
            lemma_lookup_insert(chat_d, "tools"@, t, "max_tokens"@);
            lemma_lookup_insert(chat_d, "tools"@, t, "response_format"@);
        },
        None => {},
    }
}

/// Non-empty instructions open the converted `messages` as a system message.
pub proof fn law_instructions_open_the_messages(es: Entries, t: Seq<char>)
    requires
        lookup(es, "input"@) is Some,
        lookup(es, "instructions"@) == Some(JValue::Str(t)),
        t.len() > 0,
        lookup(es, "messages"@) is None,
    ensures
        lookup(body_entries_converted(es), "messages"@) matches Some(JValue::Array(m)) && m.len()
            > 0 && m[0] == system_message(t),
{
    law_members_are_renamed(es);
}

/// A converted tool is a function tool.
proof fn lemma_tool_converted_is_function(tool: JValue)
    ensures
        tool_converted(tool) matches Some(t) ==> t.get_str("type"@) == Some("function"@),
{
    match tool {
        JValue::Object(es) => if tool.get_str("type"@) == Some("function"@) {
            let func = JValue::Object(
                seq![
                    ("name"@, member_or_null(es, "name"@)),
                    ("description"@, member_or_null(es, "description"@)),
                    ("parameters"@, member_or_null(es, "parameters"@)),
                    ("strict"@, member_or_null(es, "strict"@)),
                ],
            );
            let base: Entries = seq![("type"@, jstr("function"@)), ("function"@, func)];
            let r1 = remove_key(es, "type"@);
            let r2 = remove_key(r1, "name"@);
            let r3 = remove_key(r2, "description"@);
            let r4 = remove_key(r3, "parameters"@);
            lemma_lookup_remove(es, "type"@, "type"@);
            lemma_lookup_remove(r1, "name"@, "type"@);
            lemma_lookup_remove(r2, "description"@, "type"@);
            lemma_lookup_remove(r3, "parameters"@, "type"@);
            lemma_lookup_remove(r4, "strict"@, "type"@);
            lemma_lacks_key_lookup(tool_extra_entries(es), "type"@);
            lemma_lookup_insert_all(base, tool_extra_entries(es), "type"@);
            crate::json::lemma_key_index_bounds(base.take(0), "type"@);
            assert(base.take(1).drop_last() =~= base.take(0));
            crate::json::lemma_key_index_prefix(base, 1, "type"@);
        },
        _ => {},
    }
}

/// Every tool of a converted list is a function tool, and there are no more
/// of them than there were tools.
proof fn lemma_tools_converted_are_functions(tools: Seq<JValue>)
    ensures
        tools_converted(tools).len() <= tools.len(),
        forall|i: int|
            0 <= i < tools_converted(tools).len() ==> (#[trigger] tools_converted(tools)[i]).get_str(
                "type"@,
            ) == Some("function"@),
    decreases tools.len(),
{
    if tools.len() > 0 {
        lemma_tools_converted_are_functions(tools.drop_last());
        lemma_tool_converted_is_function(tools.last());
    }
}

/// A request's `tools` list reaches the converted body with only its function
/// tools, each in Chat Completions form (a `"type"` of `"function"`); other
/// tools (a local shell, a web search, ...) are dropped.
pub proof fn law_only_function_tools_are_sent(es: Entries, tools: Seq<JValue>)
    requires
        lookup(es, "tools"@) == Some(JValue::Array(tools)),
    ensures
        lookup(body_entries_converted(es), "tools"@) == Some(JValue::Array(tools_converted(tools))),
        tools_converted(tools).len() <= tools.len(),
        forall|i: int|
            0 <= i < tools_converted(tools).len() ==> (#[trigger] tools_converted(tools)[i]).get_str(
                "type"@,
            ) == Some("function"@),
{
    lemma_tools_converted_are_functions(tools);
    lemma_body_split(es);
    reveal_strlit("tools");
    reveal_strlit("input");
    reveal_strlit("instructions");
    reveal_strlit("max_output_tokens");
    reveal_strlit("text");
    reveal_strlit("store");
    reveal_strlit("include");
    reveal_strlit("prompt_cache_key");
    reveal_strlit("service_tier");
    reveal_strlit("client_metadata");
    reveal_strlit("reasoning");
    reveal_strlit("parallel_tool_calls");
    reveal_strlit("thinking");
    assert("tools"@.len() == 5);
    assert("input"@.len() == 5);
    assert("store"@.len() == 5);
    assert("tools"@[0] != "input"@[0]);
    assert("tools"@[0] != "store"@[0]);
    assert("instructions"@.len() == 12);
    assert("max_output_tokens"@.len() == 17);
    assert("text"@.len() == 4);
    assert("include"@.len() == 7);
    assert("prompt_cache_key"@.len() == 16);
    assert("service_tier"@.len() == 12);
    assert("client_metadata"@.len() == 15);
    assert("reasoning"@.len() == 9);
    assert("parallel_tool_calls"@.len() == 19);
    assert("thinking"@.len() == 8);
    let es_a = remove_key(es, "input"@);
    lemma_lookup_remove(es, "input"@, "tools"@);
    let es_b = if lookup(es, "input"@) is Some {
        remove_key(es_a, "instructions"@)
    } else {
        es_a
    };
    lemma_lookup_remove(es_a, "instructions"@, "tools"@);
    let es_c = remove_key(es_b, "max_output_tokens"@);
    lemma_lookup_remove(es_b, "max_output_tokens"@, "tools"@);
    let es_t = remove_key(es_c, "text"@);
    lemma_lookup_remove(es_c, "text"@, "tools"@);
    let r1 = remove_key(es_t, "store"@);
    let r2 = remove_key(r1, "include"@);
    let r3 = remove_key(r2, "prompt_cache_key"@);
    let r4 = remove_key(r3, "service_tier"@);
    let r5 = remove_key(r4, "client_metadata"@);
    let r6 = remove_key(r5, "reasoning"@);
    lemma_lookup_remove(es_t, "store"@, "tools"@);
    lemma_lookup_remove(r1, "include"@, "tools"@);
    lemma_lookup_remove(r2, "prompt_cache_key"@, "tools"@);
    lemma_lookup_remove(r3, "service_tier"@, "tools"@);
    lemma_lookup_remove(r4, "client_metadata"@, "tools"@);
    lemma_lookup_remove(r5, "reasoning"@, "tools"@);
    lemma_lookup_remove(r6, "parallel_tool_calls"@, "tools"@);
    let es_d = unsupported_members_removed(es_t);
    assert(lookup(es_d, "tools"@) == Some(JValue::Array(tools)));
    let input = lookup(es, "input"@);
    let chat_a: Entries = match input {
        Some(inp) => seq![
            ("messages"@, JValue::Array(chat_messages(inp, lookup(es_a, "instructions"@)))),
        ],
        None => Seq::empty(),
    };
    let chat_b = match lookup(es_b, "max_output_tokens"@) {
        Some(m) => insert_entry(chat_a, "max_tokens"@, m),
        None => chat_a,
    };
    let chat_c = match lookup(es_c, "text"@) {
        Some(t) => match t.get("format"@) {
            Some(f) => insert_entry(chat_b, "response_format"@, f),
            None => chat_b,
        },
        None => chat_b,
    };
    let chat_d = insert_entry(chat_c, "thinking"@, thinking_disabled());
    let converted = JValue::Array(tools_converted(tools));
    lemma_lookup_insert(chat_d, "tools"@, converted, "tools"@);
    assert(built_members(es) == insert_entry(chat_d, "tools"@, converted));
    assert(lookup(passed_members(es), "tools"@) is None);
    lemma_lacks_key_lookup(passed_members(es), "tools"@);
    lemma_lookup_insert_all(built_members(es), passed_members(es), "tools"@);
}

/// Thinking mode is turned off unless the request itself says otherwise.
pub proof fn law_thinking_disabled_by_default(es: Entries)
    requires
        lookup(es, "thinking"@) is None,
    ensures
        lookup(body_entries_converted(es), "thinking"@) == Some(thinking_disabled()),
{
    lemma_body_split(es);
    assert(lookup(passed_members(es), "thinking"@) is None);
    lemma_lacks_key_lookup(passed_members(es), "thinking"@);
    lemma_lookup_insert_all(built_members(es), passed_members(es), "thinking"@);
}

/// Merging keeps a message an assistant message with tool calls, and adds no
/// removal marker.
pub proof fn lemma_merged_pair(last: JValue, cur: JValue)
    requires
        is_assistant_with_tools(last),
    ensures
        is_assistant_with_tools(merged_pair(last, cur)),
        merged_pair(last, cur).get("__remove__"@) == last.get("__remove__"@),
{
    reveal_strlit("role");
    reveal_strlit("tool_calls");
    reveal_strlit("content");
    reveal_strlit("__remove__");
    assert("role"@.len() == 4 && "tool_calls"@.len() == 10 && "content"@.len() == 7
        && "__remove__"@.len() == 10);
    assert("tool_calls"@[0] != "__remove__"@[0]);
    match (last, cur) {
        (JValue::Object(les), JValue::Object(ces)) => {
            let les1 = match (lookup(les, "tool_calls"@), lookup(ces, "tool_calls"@)) {
                (Some(JValue::Array(a)), Some(JValue::Array(b))) => insert_entry(
                    les,
                    "tool_calls"@,
                    JValue::Array(a + b),
                ),
                _ => les,
            };
            match (lookup(les, "tool_calls"@), lookup(ces, "tool_calls"@)) {
                (Some(JValue::Array(a)), Some(JValue::Array(b))) => {
                    lemma_lookup_insert(les, "tool_calls"@, JValue::Array(a + b), "role"@);
                    lemma_lookup_insert(les, "tool_calls"@, JValue::Array(a + b), "tool_calls"@);
                    lemma_lookup_insert(les, "tool_calls"@, JValue::Array(a + b), "__remove__"@);
                },
                _ => {},
            }
            match lookup(les1, "content"@) {
                Some(JValue::Null) | None => match lookup(ces, "content"@) {
                    Some(cc) => {
                        lemma_lookup_insert(les1, "content"@, cc, "role"@);
                        lemma_lookup_insert(les1, "content"@, cc, "tool_calls"@);
                        lemma_lookup_insert(les1, "content"@, cc, "__remove__"@);
                    },
                    None => {},
                },
                _ => {},
            }
        },
        _ => {},
    }
}

/// No two neighbouring messages are both assistant messages with tool calls.
pub open spec fn no_adjacent_tool_call_messages(ms: Seq<JValue>) -> bool {
    forall|i: int|
        0 <= i < ms.len() - 1 ==> !(is_assistant_with_tools(#[trigger] ms[i])
            && is_assistant_with_tools(ms[i + 1]))
}

/// No message carries the removal marker.
pub open spec fn none_marked(ms: Seq<JValue>) -> bool {
    forall|i: int| 0 <= i < ms.len() ==> !is_marked(#[trigger] ms[i])
}

pub proof fn lemma_unmarked(ms: Seq<JValue>)
    ensures
        none_marked(unmarked(ms)),
    decreases ms.len(),
{
    if ms.len() > 0 {
        lemma_unmarked(ms.drop_last());
    }
}

pub proof fn lemma_merged_messages(ms: Seq<JValue>)
    requires
        none_marked(ms),
    ensures
        no_adjacent_tool_call_messages(merged_messages(ms)),
        none_marked(merged_messages(ms)),
    decreases ms.len(),
{
    if ms.len() > 0 {
        let d = ms.drop_last();
        assert forall|i: int| 0 <= i < d.len() implies !is_marked(#[trigger] d[i]) by {
            assert(d[i] == ms[i]);
        }
        assert(!is_marked(ms[ms.len() - 1]));
        lemma_merged_messages(d);
        let acc = merged_messages(d);
        let msg = ms.last();
        if is_assistant_with_tools(msg) && acc.len() > 0 && is_assistant_with_tools(acc.last()) {
            lemma_merged_pair(acc.last(), msg);
            assert(!is_marked(acc[acc.len() - 1]));
        }
    }
}

pub proof fn lemma_system_message(t: Seq<char>)
    ensures
        !is_assistant_with_tools(system_message(t)),
        !is_marked(system_message(t)),
{
    reveal_strlit("system");
    reveal_strlit("assistant");
    reveal_strlit("role");
    reveal_strlit("content");
    reveal_strlit("__remove__");
    assert("system"@.len() != "assistant"@.len());
    assert("role"@.len() != "content"@.len());
    assert("role"@.len() != "__remove__"@.len());
    assert("content"@.len() != "__remove__"@.len());
    let es = seq![("role"@, jstr("system"@)), ("content"@, jstr(t))];
    assert(es.drop_last() =~= seq![("role"@, jstr("system"@))]);
    assert(es.drop_last().drop_last() =~= Seq::<(Seq<char>, JValue)>::empty());
    let one = seq![("role"@, jstr("system"@))];
    assert(one.drop_last() =~= Seq::<(Seq<char>, JValue)>::empty());
    assert(crate::json::key_index(Seq::<(Seq<char>, JValue)>::empty(), "role"@) is None);
    assert(crate::json::key_index(one, "role"@) == Some(0int));
    assert(crate::json::key_index(es, "role"@) == Some(0int));
    assert(lookup(es, "role"@) == Some(jstr("system"@)));
    assert(crate::json::key_index(Seq::<(Seq<char>, JValue)>::empty(), "__remove__"@) is None);
    assert(crate::json::key_index(one, "__remove__"@) is None);
    assert(crate::json::key_index(es, "__remove__"@) is None);
    assert(lookup(es, "__remove__"@) is None);
}

/// In the converted `messages`, assistant messages with tool calls never
/// follow each other: the tool calls of such a run end up in one message.
pub proof fn law_tool_call_messages_are_merged(input: JValue, instructions: Option<JValue>)
    ensures
        no_adjacent_tool_call_messages(chat_messages(input, instructions)),
{
    let items = match input {
        JValue::Array(items) => items,
        _ => seq![input],
    };
    let u = unmarked(messages_converted(items).0);
    lemma_unmarked(messages_converted(items).0);
    lemma_merged_messages(u);
    let merged = merged_messages(u);
    match instructions {
        Some(JValue::Str(t)) => if t.len() > 0 {
            let out = seq![system_message(t)] + merged;
            lemma_system_message(t);
            assert forall|i: int| 0 <= i < out.len() - 1 implies !(is_assistant_with_tools(
                #[trigger] out[i],
            ) && is_assistant_with_tools(out[i + 1])) by {
                if i > 0 {
                    assert(out[i] == merged[i - 1]);
                    assert(out[i + 1] == merged[i]);
                }
            }
        },
        _ => {},
    }
}

/// Reasoning items never reach the converted `messages` as messages of their
/// own: no message carries the marker they are turned into.
pub proof fn law_reasoning_items_are_removed(input: JValue, instructions: Option<JValue>)
    ensures
        none_marked(chat_messages(input, instructions)),
{
    let items = match input {
        JValue::Array(items) => items,
        _ => seq![input],
    };
    let u = unmarked(messages_converted(items).0);
    lemma_unmarked(messages_converted(items).0);
    lemma_merged_messages(u);
    let merged = merged_messages(u);
    match instructions {
        Some(JValue::Str(t)) => if t.len() > 0 {
            let out = seq![system_message(t)] + merged;
            lemma_system_message(t);
            assert forall|i: int| 0 <= i < out.len() implies !is_marked(#[trigger] out[i]) by {
                if i > 0 {
                    assert(out[i] == merged[i - 1]);
                }
            }
        },
        _ => {},
    }
}


/// Whether a message does not have the role `developer`.
pub open spec fn not_developer(m: JValue) -> bool {
    m.get_str("role"@) != Some("developer"@)
}

/// No message has the role `developer`.
pub open spec fn no_developer_messages(ms: Seq<JValue>) -> bool {
    forall|i: int| 0 <= i < ms.len() ==> not_developer(#[trigger] ms[i])
}

/// The first entry of an object is what a lookup of its key finds.
proof fn lemma_lookup_first_entry(es: Entries)
    requires
        es.len() > 0,
    ensures
        lookup(es, es[0].0) == Some(es[0].1),
{
    let one = es.take(1);
    assert(one.drop_last() =~= Seq::<(Seq<char>, JValue)>::empty());
    assert(crate::json::key_index(Seq::<(Seq<char>, JValue)>::empty(), es[0].0) is None);
    assert(crate::json::key_index(one, es[0].0) == Some(0int));
    crate::json::lemma_key_index_prefix(es, 1, es[0].0);
}

/// The role names and member names the role law compares are all different.
proof fn lemma_role_names_differ()
    ensures
        "developer"@ != "system"@,
        "developer"@ != "user"@,
        "developer"@ != "assistant"@,
        "developer"@ != "tool"@,
        "role"@ != "content"@,
        "role"@ != "reasoning_content"@,
        "role"@ != "tool_calls"@,
        "role"@ != "__remove__"@,
{
    reveal_strlit("developer");
    reveal_strlit("system");
    reveal_strlit("user");
    reveal_strlit("assistant");
    reveal_strlit("tool");
    reveal_strlit("role");
    reveal_strlit("content");
    reveal_strlit("reasoning_content");
    reveal_strlit("tool_calls");
    reveal_strlit("__remove__");
    assert("developer"@.len() == 9);
    assert("system"@.len() == 6);
    assert("user"@.len() == 4);
    assert("assistant"@.len() == 9);
    assert("tool"@.len() == 4);
    assert("role"@.len() == 4);
    assert("content"@.len() == 7);
    assert("reasoning_content"@.len() == 17);
    assert("tool_calls"@.len() == 10);
    assert("__remove__"@.len() == 10);
    assert("developer"@[0] != "assistant"@[0]);
}

/// One converted input item never has the role `developer`.
proof fn lemma_message_not_developer(msg: JValue, pending: Option<Seq<char>>)
    ensures
        not_developer(message_converted(msg, pending).0),
{
    lemma_role_names_differ();
    match msg {
        JValue::Object(es) => {
            let t = msg.get_str("type"@);
            if t == Some("function_call"@) {
                lemma_lookup_first_entry(function_call_message(msg)->Object_0);
            } else if t == Some("function_call_output"@) {
                lemma_lookup_first_entry(tool_result_message(msg)->Object_0);
            } else if t == Some("reasoning"@) {
                crate::json::lemma_key_index_bounds(removal_marker()->Object_0, "role"@);
            } else {
                let es1 = role_converted(es);
                match lookup(es, "role"@) {
                    Some(role) => if role.as_str() == Some("developer"@) {
                        lemma_lookup_insert(es, "role"@, jstr("system"@), "role"@);
                    } else if role.as_str() == Some("tool"@) {
                        let e1 = insert_entry(es, "role"@, jstr("user"@));
                        lemma_lookup_insert(es, "role"@, jstr("user"@), "role"@);
                        let prefix = tool_result_prefix(JValue::Object(e1).get_str("tool_call_id"@));
                        match lookup(e1, "content"@) {
                            Some(JValue::Str(x)) => lemma_lookup_insert(
                                e1,
                                "content"@,
                                jstr(prefix + x),
                                "role"@,
                            ),
                            Some(JValue::Array(items)) => lemma_lookup_insert(
                                e1,
                                "content"@,
                                jstr(prefix + joined_texts(items)),
                                "role"@,
                            ),
                            _ => {},
                        }
                    },
                    None => {},
                }
                assert(not_developer(JValue::Object(es1)));
                let assistant = is_assistant(es1);
                let es2 = if assistant && pending is Some {
                    insert_entry(es1, "reasoning_content"@, jstr(pending->0))
                } else {
                    es1
                };
                if assistant && pending is Some {
                    lemma_lookup_insert(es1, "reasoning_content"@, jstr(pending->0), "role"@);
                }
                match lookup(es2, "content"@) {
                    Some(c) => lemma_lookup_insert(
                        es2,
                        "content"@,
                        content_converted(c, assistant),
                        "role"@,
                    ),
                    None => {},
                }
            }
        },
        _ => {},
    }
}

/// No converted input item has the role `developer`.
proof fn lemma_converted_not_developer(msgs: Seq<JValue>)
    ensures
        no_developer_messages(messages_converted(msgs).0),
    decreases msgs.len(),
{
    if msgs.len() > 0 {
        lemma_converted_not_developer(msgs.drop_last());
        let (prev, pending) = messages_converted(msgs.drop_last());
        lemma_message_not_developer(msgs.last(), pending);
        let out = messages_converted(msgs).0;
        assert forall|i: int| 0 <= i < out.len() implies not_developer(#[trigger] out[i]) by {
            if i < prev.len() {
                assert(out[i] == prev[i]);
            }
        }
    }
}

/// Dropping the marked items keeps the property.
proof fn lemma_unmarked_not_developer(ms: Seq<JValue>)
    requires
        no_developer_messages(ms),
    ensures
        no_developer_messages(unmarked(ms)),
    decreases ms.len(),
{
    if ms.len() > 0 {
        let d = ms.drop_last();
        assert forall|i: int| 0 <= i < d.len() implies not_developer(#[trigger] d[i]) by {
            assert(d[i] == ms[i]);
        }
        assert(not_developer(ms[ms.len() - 1]));
        lemma_unmarked_not_developer(d);
    }
}

/// Merging keeps a message's role.
proof fn lemma_merged_pair_role(last: JValue, cur: JValue)
    ensures
        merged_pair(last, cur).get("role"@) == last.get("role"@),
{
    lemma_role_names_differ();
    match (last, cur) {
        (JValue::Object(les), JValue::Object(ces)) => {
            let les1 = match (lookup(les, "tool_calls"@), lookup(ces, "tool_calls"@)) {
                (Some(JValue::Array(a)), Some(JValue::Array(b))) => insert_entry(
                    les,
                    "tool_calls"@,
                    JValue::Array(a + b),
                ),
                _ => les,
            };
            match (lookup(les, "tool_calls"@), lookup(ces, "tool_calls"@)) {
                (Some(JValue::Array(a)), Some(JValue::Array(b))) => lemma_lookup_insert(
                    les,
                    "tool_calls"@,
                    JValue::Array(a + b),
                    "role"@,
                ),
                _ => {},
            }
            match lookup(les1, "content"@) {
                Some(JValue::Null) | None => match lookup(ces, "content"@) {
                    Some(cc) => lemma_lookup_insert(les1, "content"@, cc, "role"@),
                    None => {},
                },
                _ => {},
            }
        },
        _ => {},
    }
}

/// Merging tool call messages keeps the property.
proof fn lemma_merged_not_developer(ms: Seq<JValue>)
    requires
        no_developer_messages(ms),
    ensures
        no_developer_messages(merged_messages(ms)),
    decreases ms.len(),
{
    if ms.len() > 0 {
        let d = ms.drop_last();
        assert forall|i: int| 0 <= i < d.len() implies not_developer(#[trigger] d[i]) by {
            assert(d[i] == ms[i]);
        }
        assert(not_developer(ms[ms.len() - 1]));
        lemma_merged_not_developer(d);
        let acc = merged_messages(d);
        let msg = ms.last();
        let out = merge_step(acc, msg);
        if is_assistant_with_tools(msg) && acc.len() > 0 && is_assistant_with_tools(acc.last()) {
            lemma_merged_pair_role(acc.last(), msg);
            assert(not_developer(acc[acc.len() - 1]));
            assert forall|i: int| 0 <= i < out.len() implies not_developer(#[trigger] out[i]) by {
                if i < acc.len() - 1 {
                    assert(out[i] == acc[i]);
                }
            }
        } else {
            assert forall|i: int| 0 <= i < out.len() implies not_developer(#[trigger] out[i]) by {
                if i < acc.len() {
                    assert(out[i] == acc[i]);
                }
            }
        }
    }
}

/// No converted message has the role `developer`: developer messages are sent
/// as system messages.
pub proof fn law_no_developer_messages(input: JValue, instructions: Option<JValue>)
    ensures
        no_developer_messages(chat_messages(input, instructions)),
{
    let items = match input {
        JValue::Array(items) => items,
        _ => seq![input],
    };
    lemma_converted_not_developer(items);
    let u = unmarked(messages_converted(items).0);
    lemma_unmarked_not_developer(messages_converted(items).0);
    lemma_merged_not_developer(u);
    let merged = merged_messages(u);
    match instructions {
        Some(JValue::Str(t)) => if t.len() > 0 {
            let out = seq![system_message(t)] + merged;
            lemma_role_names_differ();
            lemma_lookup_first_entry(system_message(t)->Object_0);
            assert forall|i: int| 0 <= i < out.len() implies not_developer(#[trigger] out[i]) by {
                if i > 0 {
                    assert(out[i] == merged[i - 1]);
                }
            }
        },
        _ => {},
    }
}


/// The entry at `i` is what a lookup of its key finds when no other entry
/// has that key.
proof fn lemma_lookup_only_entry(es: Entries, i: int)
    requires
        0 <= i < es.len(),
        forall|j: int| 0 <= j < es.len() && j != i ==> es[j].0 != es[i].0,
    ensures
        lookup(es, es[i].0) == Some(es[i].1),
{
    crate::json::lemma_key_index_bounds(es, es[i].0);
}

/// A key no entry has is not found.
proof fn lemma_lookup_no_entry(es: Entries, k: Seq<char>)
    requires
        forall|j: int| 0 <= j < es.len() ==> es[j].0 != k,
    ensures
        lookup(es, k) is None,
{
    crate::json::lemma_key_index_bounds(es, k);
}

/// The member names of converted messages and tool calls are all different.
proof fn lemma_message_member_names_differ()
    ensures
        "role"@ != "content"@,
        "role"@ != "tool_calls"@,
        "content"@ != "tool_calls"@,
        "__remove__"@ != "role"@,
        "__remove__"@ != "content"@,
        "__remove__"@ != "tool_calls"@,
        "id"@ != "type"@,
        "id"@ != "function"@,
        "type"@ != "function"@,
        "name"@ != "arguments"@,
{
    reveal_strlit("role");
    reveal_strlit("content");
    reveal_strlit("tool_calls");
    reveal_strlit("__remove__");
    reveal_strlit("id");
    reveal_strlit("type");
    reveal_strlit("function");
    reveal_strlit("name");
    reveal_strlit("arguments");
    assert("role"@.len() == 4);
    assert("content"@.len() == 7);
    assert("tool_calls"@.len() == 10);
    assert("__remove__"@.len() == 10);
    assert("tool_calls"@[0] != "__remove__"@[0]);
    assert("id"@.len() == 2);
    assert("type"@.len() == 4);
    assert("function"@.len() == 8);
    assert("name"@.len() == 4);
    assert("arguments"@.len() == 9);
}

/// The first converted item is the first input item converted with no
/// reasoning waiting; there is one converted item per input item.
proof fn lemma_messages_converted_first(items: Seq<JValue>)
    ensures
        messages_converted(items).0.len() == items.len(),
        items.len() > 0 ==> messages_converted(items).0[0] == message_converted(items[0], None).0,
    decreases items.len(),
{
    if items.len() > 0 {
        let d = items.drop_last();
        lemma_messages_converted_first(d);
        if d.len() == 0 {
            assert(items.last() == items[0]);
        } else {
            assert(d[0] == items[0]);
        }
    }
}

/// Dropping the marked items keeps an unmarked first item first.
proof fn lemma_unmarked_first(ms: Seq<JValue>)
    requires
        ms.len() > 0,
        !is_marked(ms[0]),
    ensures
        unmarked(ms).len() > 0,
        unmarked(ms)[0] == ms[0],
    decreases ms.len(),
{
    let d = ms.drop_last();
    if d.len() == 0 {
        assert(ms.last() == ms[0]);
        assert(unmarked(d) =~= Seq::<JValue>::empty());
    } else {
        assert(d[0] == ms[0]);
        lemma_unmarked_first(d);
    }
}

/// An assistant message whose tool calls are an array starting with `first`,
/// and whose content is `content` when that is given.
pub open spec fn leads_with_call(m: JValue, first: JValue, content: Option<JValue>) -> bool {
    &&& m.get_str("role"@) == Some("assistant"@)
    &&& m.get("tool_calls"@) matches Some(JValue::Array(t)) && t.len() > 0 && t[0] == first
    &&& content matches Some(c) ==> m.get("content"@) == Some(c)
}

/// Merging another message into an assistant message keeps its role, its
/// first tool call, and a content that is not null.
proof fn lemma_merged_pair_leads(last: JValue, cur: JValue, first: JValue, content: Option<JValue>)
    requires
        leads_with_call(last, first, content),
        content matches Some(c) ==> c != JValue::Null,
    ensures
        leads_with_call(merged_pair(last, cur), first, content),
{
    lemma_message_member_names_differ();
    match (last, cur) {
        (JValue::Object(les), JValue::Object(ces)) => {
            let les1 = match (lookup(les, "tool_calls"@), lookup(ces, "tool_calls"@)) {
                (Some(JValue::Array(a)), Some(JValue::Array(b))) => insert_entry(
                    les,
                    "tool_calls"@,
                    JValue::Array(a + b),
                ),
                _ => les,
            };
            match (lookup(les, "tool_calls"@), lookup(ces, "tool_calls"@)) {
                (Some(JValue::Array(a)), Some(JValue::Array(b))) => {
                    lemma_lookup_insert(les, "tool_calls"@, JValue::Array(a + b), "role"@);
                    lemma_lookup_insert(les, "tool_calls"@, JValue::Array(a + b), "tool_calls"@);
                    lemma_lookup_insert(les, "tool_calls"@, JValue::Array(a + b), "content"@);
                    assert((a + b)[0] == a[0]);
                },
                _ => {},
            }
            match lookup(les1, "content"@) {
                Some(JValue::Null) | None => match lookup(ces, "content"@) {
                    Some(cc) => {
                        lemma_lookup_insert(les1, "content"@, cc, "role"@);
                        lemma_lookup_insert(les1, "content"@, cc, "tool_calls"@);
                    },
                    None => {},
                },
                _ => {},
            }
        },
        _ => {},
    }
}

/// Merging the messages keeps the first one first, with its role, its first
/// tool call and a content that is not null.
proof fn lemma_merged_first(ms: Seq<JValue>, first: JValue, content: Option<JValue>)
    requires
        ms.len() > 0,
        leads_with_call(ms[0], first, content),
        content matches Some(c) ==> c != JValue::Null,
    ensures
        merged_messages(ms).len() > 0,
        leads_with_call(merged_messages(ms)[0], first, content),
    decreases ms.len(),
{
    let d = ms.drop_last();
    if d.len() == 0 {
        assert(ms.last() == ms[0]);
        assert(merged_messages(d) =~= Seq::<JValue>::empty());
    } else {
        assert(d[0] == ms[0]);
        lemma_merged_first(d, first, content);
        let acc = merged_messages(d);
        let msg = ms.last();
        if is_assistant_with_tools(msg) && acc.len() > 0 && is_assistant_with_tools(acc.last()) {
            if acc.len() == 1 {
                lemma_merged_pair_leads(acc.last(), msg, first, content);
            }
        }
    }
}

/// A Responses `function_call` item, when it opens the input (and there are
/// no instructions to go first), becomes the first message: an assistant
/// message whose first tool call has the item's call id as its `"id"`, the
/// type `"function"`, and the item's `"name"` and `"arguments"` as the
/// function's name and arguments, whatever follows it.
pub proof fn law_function_call_becomes_tool_call(
    es: Entries,
    items: Seq<JValue>,
    call_id: Seq<char>,
    name: Seq<char>,
    arguments: Seq<char>,
)
    requires
        lookup(es, "input"@) == Some(JValue::Array(items)),
        lookup(es, "instructions"@) is None,
        lookup(es, "messages"@) is None,
        items.len() > 0,
        items[0].get_str("type"@) == Some("function_call"@),
        items[0].get_str("call_id"@) == Some(call_id),
        items[0].get_str("name"@) == Some(name),
        items[0].get_str("arguments"@) == Some(arguments),
    ensures
        lookup(body_entries_converted(es), "messages"@) matches Some(JValue::Array(ms)) && (ms.len()
            > 0 && ms[0].get_str("role"@) == Some("assistant"@) && (ms[0].get(
            "tool_calls"@,
        ) matches Some(JValue::Array(tcs)) && (tcs.len() > 0 && tcs[0].get_str("id"@) == Some(
            call_id,
        ) && tcs[0].get_str("type"@) == Some("function"@) && (tcs[0].get("function"@) matches Some(
            f,
        ) && (f.get_str("name"@) == Some(name) && f.get_str("arguments"@) == Some(arguments)))))),
{
    lemma_message_member_names_differ();
    law_members_are_renamed(es);
    let item = items[0];
    lemma_messages_converted_first(items);
    let conv = messages_converted(items).0;
    let m0 = function_call_message(item);
    assert(message_converted(item, None).0 == m0);
    let func = obj2("name"@, jstr(name), "arguments"@, jstr(arguments));
    let tc = obj3("id"@, jstr(call_id), "type"@, jstr("function"@), "function"@, func);
    assert(str_or_empty(item, "name"@) == name);
    assert(str_or_empty(item, "arguments"@) == arguments);
    assert(str_or_empty(item, "call_id"@) == call_id);
    assert(m0 == obj3(
        "role"@,
        jstr("assistant"@),
        "content"@,
        JValue::Null,
        "tool_calls"@,
        JValue::Array(seq![tc]),
    ));
    let mes = m0->Object_0;
    lemma_lookup_only_entry(mes, 0);
    lemma_lookup_only_entry(mes, 2);
    lemma_lookup_no_entry(mes, "__remove__"@);
    assert(!is_marked(m0));
    assert(seq![tc][0] == tc);
    assert(leads_with_call(m0, tc, None));
    lemma_unmarked_first(conv);
    let u = unmarked(conv);
    lemma_merged_first(u, tc, None);
    let tes = tc->Object_0;
    lemma_lookup_only_entry(tes, 0);
    lemma_lookup_only_entry(tes, 1);
    lemma_lookup_only_entry(tes, 2);
    let fes = func->Object_0;
    lemma_lookup_only_entry(fes, 0);
    lemma_lookup_only_entry(fes, 1);
    assert(chat_messages(JValue::Array(items), None) == merged_messages(u));
}

/// When the input opens with an assistant message that carries tool calls
/// and a text content (and there are no instructions to go first), the first
/// converted message keeps that text as its content and that first tool call
/// first, whatever tool call messages are merged into it.
pub proof fn law_merged_tool_calls_keep_the_first_content(
    es: Entries,
    items: Seq<JValue>,
    calls: Seq<JValue>,
    text: Seq<char>,
)
    requires
        lookup(es, "input"@) == Some(JValue::Array(items)),
        lookup(es, "instructions"@) is None,
        lookup(es, "messages"@) is None,
        items.len() > 0,
        items[0].get_str("role"@) == Some("assistant"@),
        items[0].get_str("type"@) is None,
        items[0].get("tool_calls"@) == Some(JValue::Array(calls)),
        calls.len() > 0,
        items[0].get("content"@) == Some(JValue::Str(text)),
        items[0].get("__remove__"@) is None,
    ensures
        lookup(body_entries_converted(es), "messages"@) matches Some(JValue::Array(ms)) && (ms.len()
            > 0 && ms[0].get("content"@) == Some(JValue::Str(text)) && (ms[0].get(
            "tool_calls"@,
        ) matches Some(JValue::Array(tcs)) && (tcs.len() > 0 && tcs[0] == calls[0]))),
{
    lemma_message_member_names_differ();
    lemma_role_names_differ();
    law_members_are_renamed(es);
    let item = items[0];
    let es0 = item->Object_0;
    lemma_messages_converted_first(items);
    let conv = messages_converted(items).0;
    assert("assistant"@ != "tool"@) by {
        reveal_strlit("assistant");
        reveal_strlit("tool");
        assert("assistant"@.len() != "tool"@.len());
    }
    assert(lookup(es0, "role"@) is Some);
    assert(role_converted(es0) == es0);
    assert(is_assistant(es0));
    assert(content_converted(JValue::Str(text), true) == JValue::Str(text));
    let es3 = insert_entry(es0, "content"@, JValue::Str(text));
    assert(chat_message_converted(es0, None).0 == JValue::Object(es3));
    assert(message_converted(item, None).0 == JValue::Object(es3));
    let m0 = JValue::Object(es3);
    lemma_lookup_insert(es0, "content"@, JValue::Str(text), "role"@);
    lemma_lookup_insert(es0, "content"@, JValue::Str(text), "tool_calls"@);
    lemma_lookup_insert(es0, "content"@, JValue::Str(text), "content"@);
    lemma_lookup_insert(es0, "content"@, JValue::Str(text), "__remove__"@);
    assert(!is_marked(m0));
    assert(leads_with_call(m0, calls[0], Some(JValue::Str(text))));
    lemma_unmarked_first(conv);
    let u = unmarked(conv);
    lemma_merged_first(u, calls[0], Some(JValue::Str(text)));
    assert(chat_messages(JValue::Array(items), None) == merged_messages(u));
}


/// More member and role names that the message laws compare.
proof fn lemma_more_names_differ()
    ensures
        "tool_call_id"@ != "role"@,
        "tool_call_id"@ != "content"@,
        "tool_call_id"@ != "__remove__"@,
        "reasoning_content"@ != "content"@,
        "reasoning_content"@ != "role"@,
        "reasoning_content"@ != "__remove__"@,
        "reasoning_content"@ != "tool_calls"@,
        "tool"@ != "assistant"@,
        "user"@ != "assistant"@,
        "system"@ != "assistant"@,
        "developer"@ != "tool"@,
        "developer"@ != "assistant"@,
{
    reveal_strlit("tool_call_id");
    reveal_strlit("role");
    reveal_strlit("content");
    reveal_strlit("__remove__");
    reveal_strlit("reasoning_content");
    reveal_strlit("tool");
    reveal_strlit("assistant");
    reveal_strlit("user");
    reveal_strlit("system");
    reveal_strlit("developer");
    reveal_strlit("tool_calls");
    assert("tool_calls"@.len() == 10);
    assert("tool_call_id"@.len() == 12);
    assert("role"@.len() == 4);
    assert("content"@.len() == 7);
    assert("__remove__"@.len() == 10);
    assert("reasoning_content"@.len() == 17);
    assert("tool"@.len() == 4);
    assert("assistant"@.len() == 9);
    assert("user"@.len() == 4);
    assert("system"@.len() == 6);
    assert("developer"@.len() == 9);
    assert("developer"@[0] != "assistant"@[0]);
}

/// Merging the messages keeps a first message that is not an assistant
/// message with tool calls as it is.
proof fn lemma_merged_first_plain(ms: Seq<JValue>)
    requires
        ms.len() > 0,
        !is_assistant_with_tools(ms[0]),
    ensures
        merged_messages(ms).len() > 0,
        merged_messages(ms)[0] == ms[0],
    decreases ms.len(),
{
    let d = ms.drop_last();
    if d.len() == 0 {
        assert(ms.last() == ms[0]);
        assert(merged_messages(d) =~= Seq::<JValue>::empty());
    } else {
        assert(d[0] == ms[0]);
        lemma_merged_first_plain(d);
    }
}

/// With no instructions, a first input item that converts to an unmarked
/// message that is not an assistant message with tool calls stays the first
/// message as converted.
proof fn lemma_first_plain_message(items: Seq<JValue>)
    requires
        items.len() > 0,
        !is_marked(message_converted(items[0], None).0),
        !is_assistant_with_tools(message_converted(items[0], None).0),
    ensures
        chat_messages(JValue::Array(items), None).len() > 0,
        chat_messages(JValue::Array(items), None)[0] == message_converted(items[0], None).0,
{
    lemma_messages_converted_first(items);
    let conv = messages_converted(items).0;
    lemma_unmarked_first(conv);
    lemma_merged_first_plain(unmarked(conv));
}

/// A Responses `function_call_output` item whose output is text, when it
/// opens the input (and there are no instructions to go first), becomes a
/// `tool` message that names the item's call id as `tool_call_id` and holds
/// the output as its content.
pub proof fn law_function_call_output_becomes_tool_message(
    es: Entries,
    items: Seq<JValue>,
    call_id: Seq<char>,
    output: Seq<char>,
)
    requires
        lookup(es, "input"@) == Some(JValue::Array(items)),
        lookup(es, "instructions"@) is None,
        lookup(es, "messages"@) is None,
        items.len() > 0,
        items[0].get_str("type"@) == Some("function_call_output"@),
        items[0].get_str("call_id"@) == Some(call_id),
        items[0].get("output"@) == Some(JValue::Str(output)),
    ensures
        lookup(body_entries_converted(es), "messages"@) matches Some(JValue::Array(ms)) && (ms.len()
            > 0 && ms[0].get_str("role"@) == Some("tool"@) && ms[0].get_str("tool_call_id"@) == Some(
            call_id,
        ) && ms[0].get_str("content"@) == Some(output)),
{
    lemma_more_names_differ();
    lemma_message_member_names_differ();
    law_members_are_renamed(es);
    let item = items[0];
    reveal_strlit("function_call_output");
    reveal_strlit("function_call");
    assert("function_call_output"@ != "function_call"@) by {
        assert("function_call_output"@.len() != "function_call"@.len());
    }
    let m0 = tool_result_message(item);
    assert(message_converted(item, None).0 == m0);
    assert(str_or_empty(item, "call_id"@) == call_id);
    assert(tool_output_text(item) == output);
    let mes = m0->Object_0;
    lemma_lookup_only_entry(mes, 0);
    lemma_lookup_only_entry(mes, 1);
    lemma_lookup_only_entry(mes, 2);
    lemma_lookup_no_entry(mes, "__remove__"@);
    lemma_first_plain_message(items);
}

/// The role and content of a first input message that has a role and text
/// content, converted (with no instructions to go first): `developer`
/// becomes `system` with the content kept; `tool` becomes `user`, with the
/// content put after `[Tool result for <tool_call_id>]` and a line break.
pub proof fn law_roles_are_mapped(es: Entries, items: Seq<JValue>, role: Seq<char>, text: Seq<char>)
    requires
        lookup(es, "input"@) == Some(JValue::Array(items)),
        lookup(es, "instructions"@) is None,
        lookup(es, "messages"@) is None,
        items.len() > 0,
        items[0].get_str("type"@) is None,
        items[0].get_str("role"@) == Some(role),
        items[0].get("content"@) == Some(JValue::Str(text)),
        items[0].get("__remove__"@) is None,
    ensures
        role == "developer"@ ==> (lookup(body_entries_converted(es), "messages"@) matches Some(
            JValue::Array(ms),
        ) && (ms.len() > 0 && ms[0].get_str("role"@) == Some("system"@) && ms[0].get_str(
            "content"@,
        ) == Some(text))),
        forall|id: Seq<char>|
            role == "tool"@ && items[0].get_str("tool_call_id"@) == Some(id) ==> (lookup(
                body_entries_converted(es),
                "messages"@,
            ) matches Some(JValue::Array(ms)) && (ms.len() > 0 && ms[0].get_str("role"@) == Some(
                "user"@,
            ) && ms[0].get_str("content"@) == Some("[Tool result for "@ + id + "]\n"@ + text))),
{
    lemma_more_names_differ();
    lemma_message_member_names_differ();
    law_members_are_renamed(es);
    let item = items[0];
    let es0 = item->Object_0;
    if role == "developer"@ {
        let es1 = insert_entry(es0, "role"@, jstr("system"@));
        assert(role_converted(es0) == es1);
        lemma_lookup_insert(es0, "role"@, jstr("system"@), "role"@);
        lemma_lookup_insert(es0, "role"@, jstr("system"@), "content"@);
        lemma_lookup_insert(es0, "role"@, jstr("system"@), "__remove__"@);
        assert(!is_assistant(es1));
        assert(content_converted(JValue::Str(text), false) == JValue::Str(text));
        let es3 = insert_entry(es1, "content"@, JValue::Str(text));
        assert(message_converted(item, None).0 == JValue::Object(es3));
        lemma_lookup_insert(es1, "content"@, JValue::Str(text), "role"@);
        lemma_lookup_insert(es1, "content"@, JValue::Str(text), "content"@);
        lemma_lookup_insert(es1, "content"@, JValue::Str(text), "__remove__"@);
        lemma_first_plain_message(items);
    }
    assert forall|id: Seq<char>|
        role == "tool"@ && items[0].get_str("tool_call_id"@) == Some(id) implies (lookup(
            body_entries_converted(es),
            "messages"@,
        ) matches Some(JValue::Array(ms)) && (ms.len() > 0 && ms[0].get_str("role"@) == Some(
            "user"@,
        ) && ms[0].get_str("content"@) == Some("[Tool result for "@ + id + "]\n"@ + text))) by {
        let e1 = insert_entry(es0, "role"@, jstr("user"@));
        lemma_lookup_insert(es0, "role"@, jstr("user"@), "role"@);
        lemma_lookup_insert(es0, "role"@, jstr("user"@), "content"@);
        lemma_lookup_insert(es0, "role"@, jstr("user"@), "tool_call_id"@);
        lemma_lookup_insert(es0, "role"@, jstr("user"@), "__remove__"@);
        let full = "[Tool result for "@ + id + "]\n"@ + text;
        assert(tool_result_prefix(JValue::Object(e1).get_str("tool_call_id"@)) + text == full);
        let es1 = insert_entry(e1, "content"@, jstr(full));
        assert(role_converted(es0) == es1);
        lemma_lookup_insert(e1, "content"@, jstr(full), "role"@);
        lemma_lookup_insert(e1, "content"@, jstr(full), "content"@);
        lemma_lookup_insert(e1, "content"@, jstr(full), "__remove__"@);
        assert(!is_assistant(es1));
        assert(content_converted(JValue::Str(full), false) == JValue::Str(full));
        let es3 = insert_entry(es1, "content"@, JValue::Str(full));
        assert(message_converted(item, None).0 == JValue::Object(es3));
        lemma_lookup_insert(es1, "content"@, JValue::Str(full), "role"@);
        lemma_lookup_insert(es1, "content"@, JValue::Str(full), "content"@);
        lemma_lookup_insert(es1, "content"@, JValue::Str(full), "__remove__"@);
        lemma_first_plain_message(items);
    }
}


/// Each converted item is its input item converted with the reasoning left
/// waiting by the items before it.
proof fn lemma_messages_converted_at(items: Seq<JValue>, i: int)
    requires
        0 <= i < items.len(),
    ensures
        messages_converted(items).0.len() == items.len(),
        messages_converted(items).0[i] == message_converted(
            items[i],
            messages_converted(items.take(i)).1,
        ).0,
    decreases items.len(),
{
    let d = items.drop_last();
    lemma_messages_converted_first(items);
    if i < d.len() {
        lemma_messages_converted_at(d, i);
        assert(d[i] == items[i]);
        assert(d.take(i) =~= items.take(i));
    } else {
        assert(items.take(i) =~= d);
        assert(items.last() == items[i]);
    }
}

/// A marked first item is dropped.
proof fn lemma_unmarked_skip_first(ms: Seq<JValue>)
    requires
        ms.len() > 0,
        is_marked(ms[0]),
    ensures
        unmarked(ms) == unmarked(ms.subrange(1, ms.len() as int)),
    decreases ms.len(),
{
    let d = ms.drop_last();
    let rest = ms.subrange(1, ms.len() as int);
    if d.len() == 0 {
        assert(ms.last() == ms[0]);
        assert(rest =~= Seq::<JValue>::empty());
        assert(unmarked(d) =~= Seq::<JValue>::empty());
    } else {
        assert(d[0] == ms[0]);
        lemma_unmarked_skip_first(d);
        assert(rest.drop_last() =~= d.subrange(1, d.len() as int));
        assert(rest.last() == ms.last());
    }
}

/// The reasoning of a Responses `reasoning` item that opens the input is
/// passed back with the assistant message that follows it, as that
/// message's `reasoning_content` (and the reasoning item itself is not sent):
/// with no instructions to go first, the first message is that assistant
/// message, with its content and the reasoning text.
pub proof fn law_reasoning_goes_to_the_next_assistant(
    es: Entries,
    items: Seq<JValue>,
    part: JValue,
    reasoning: Seq<char>,
    text: Seq<char>,
)
    requires
        lookup(es, "input"@) == Some(JValue::Array(items)),
        lookup(es, "instructions"@) is None,
        lookup(es, "messages"@) is None,
        items.len() >= 2,
        items[0].get_str("type"@) == Some("reasoning"@),
        items[0].get("content"@) == Some(JValue::Array(seq![part])),
        part.get_str("text"@) == Some(reasoning),
        reasoning.len() > 0,
        items[1].get_str("type"@) is None,
        items[1].get_str("role"@) == Some("assistant"@),
        items[1].get("content"@) == Some(JValue::Str(text)),
        items[1].get("tool_calls"@) is None,
        items[1].get("__remove__"@) is None,
    ensures
        lookup(body_entries_converted(es), "messages"@) matches Some(JValue::Array(ms)) && (ms.len()
            > 0 && ms[0].get_str("role"@) == Some("assistant"@) && ms[0].get_str(
            "reasoning_content"@,
        ) == Some(reasoning) && ms[0].get("content"@) == Some(JValue::Str(text))),
{
    lemma_more_names_differ();
    lemma_message_member_names_differ();
    law_members_are_renamed(es);
    reveal_strlit("reasoning");
    reveal_strlit("function_call");
    reveal_strlit("function_call_output");
    assert("reasoning"@ != "function_call"@ && "reasoning"@ != "function_call_output"@) by {
        assert("reasoning"@.len() == 9);
        assert("function_call"@.len() == 13);
        assert("function_call_output"@.len() == 20);
    }
    let i0 = items[0];
    let i1 = items[1];
    let one = seq![part];
    assert(one.drop_last() =~= Seq::<JValue>::empty());
    assert(one.last() == part);
    assert(joined_texts(one.drop_last()) == Seq::<char>::empty());
    assert(str_or_empty(part, "text"@) == reasoning);
    assert(Seq::<char>::empty() + reasoning =~= reasoning);
    assert(joined_texts(one) =~= reasoning);
    assert(reasoning_text(i0) == reasoning);
    assert(message_converted(i0, None) == (removal_marker(), Some(reasoning)));
    lemma_messages_converted_first(items);
    lemma_messages_converted_at(items, 1);
    let t1 = items.take(1);
    assert(t1.drop_last() =~= Seq::<JValue>::empty());
    assert(t1.last() == i0);
    assert(messages_converted(t1.drop_last()) == (Seq::<JValue>::empty(), None::<Seq<char>>));
    assert(messages_converted(t1).1 == Some(reasoning));
    let es1 = i1->Object_0;
    assert(role_converted(es1) == es1);
    assert(is_assistant(es1));
    let es2 = insert_entry(es1, "reasoning_content"@, jstr(reasoning));
    lemma_lookup_insert(es1, "reasoning_content"@, jstr(reasoning), "role"@);
    lemma_lookup_insert(es1, "reasoning_content"@, jstr(reasoning), "content"@);
    lemma_lookup_insert(es1, "reasoning_content"@, jstr(reasoning), "reasoning_content"@);
    lemma_lookup_insert(es1, "reasoning_content"@, jstr(reasoning), "tool_calls"@);
    lemma_lookup_insert(es1, "reasoning_content"@, jstr(reasoning), "__remove__"@);
    assert(content_converted(JValue::Str(text), true) == JValue::Str(text));
    let es3 = insert_entry(es2, "content"@, JValue::Str(text));
    lemma_lookup_insert(es2, "content"@, JValue::Str(text), "role"@);
    lemma_lookup_insert(es2, "content"@, JValue::Str(text), "content"@);
    lemma_lookup_insert(es2, "content"@, JValue::Str(text), "reasoning_content"@);
    lemma_lookup_insert(es2, "content"@, JValue::Str(text), "tool_calls"@);
    lemma_lookup_insert(es2, "content"@, JValue::Str(text), "__remove__"@);
    let m1 = JValue::Object(es3);
    assert(message_converted(i1, Some(reasoning)).0 == m1);
    let conv = messages_converted(items).0;
    assert(conv[0] == removal_marker());
    let mk = removal_marker()->Object_0;
    lemma_lookup_only_entry(mk, 0);
    assert(is_marked(conv[0]));
    lemma_unmarked_skip_first(conv);
    let rest = conv.subrange(1, conv.len() as int);
    assert(rest[0] == m1);
    lemma_unmarked_first(rest);
    let u = unmarked(conv);
    assert(u[0] == m1);
    assert(lookup(es1, "tool_calls"@) is None);
    assert(m1.get("tool_calls"@) is None);
    lemma_merged_first_plain(u);
    assert(chat_messages(JValue::Array(items), None) == merged_messages(u));
}


/// A Responses content type that the Chat API names otherwise.
pub open spec fn has_type(item: JValue, t: Seq<char>) -> bool {
    item.get_str("type"@) == Some(t)
}

/// Converting a content array renames the types of its items, one item for
/// one: `input_text` and `output_text` become `text`, `input_image` becomes
/// `image_url`; every other member of an item is kept, and items of any
/// other type (or none) are kept as they are.  Content that is not an array
/// is kept.
pub proof fn law_content_item_types_are_renamed(items: Seq<JValue>, content: JValue)
    ensures
        content_types_converted(JValue::Array(items)) matches JValue::Array(out) && (out.len()
            == items.len() && forall|i: int|
            0 <= i < items.len() ==> {
                &&& (has_type(items[i], "input_text"@) || has_type(items[i], "output_text"@))
                    ==> has_type(#[trigger] out[i], "text"@)
                &&& has_type(items[i], "input_image"@) ==> has_type(out[i], "image_url"@)
                &&& !has_type(items[i], "input_text"@) && !has_type(items[i], "output_text"@)
                    && !has_type(items[i], "input_image"@) ==> out[i] == items[i]
                &&& forall|k: Seq<char>| k != "type"@ ==> #[trigger] out[i].get(k) == items[i].get(k)
            }),
        !(content is Array) ==> content_types_converted(content) == content,
{
    reveal_strlit("input_text");
    reveal_strlit("output_text");
    reveal_strlit("input_image");
    assert("input_text"@.len() == 10);
    assert("output_text"@.len() == 11);
    assert("input_image"@.len() == 11);
    assert("input_image"@[0] != "output_text"@[0]);
    let out = items.map_values(|it: JValue| content_item_converted(it));
    assert forall|i: int| 0 <= i < items.len() implies {
        &&& (has_type(items[i], "input_text"@) || has_type(items[i], "output_text"@)) ==> has_type(
            #[trigger] out[i],
            "text"@,
        )
        &&& has_type(items[i], "input_image"@) ==> has_type(out[i], "image_url"@)
        &&& !has_type(items[i], "input_text"@) && !has_type(items[i], "output_text"@) && !has_type(
            items[i],
            "input_image"@,
        ) ==> out[i] == items[i]
        &&& forall|k: Seq<char>| k != "type"@ ==> #[trigger] out[i].get(k) == items[i].get(k)
    } by {
        let it = items[i];
        assert(out[i] == content_item_converted(it));
        match it {
            JValue::Object(es) => match lookup(es, "type"@) {
                Some(t) => match t.as_str() {
                    Some(ts) => match chat_content_type(ts) {
                        Some(n) => {
                            lemma_lookup_insert(es, "type"@, jstr(n), "type"@);
                            assert forall|k: Seq<char>| k != "type"@ implies #[trigger] out[i].get(k)
                                == items[i].get(k) by {
                                lemma_lookup_insert(es, "type"@, jstr(n), k);
                            }
                        },
                        None => {},
                    },
                    None => {},
                },
                None => {},
            },
            _ => {},
        }
    }
}


/// The member `k` of `v`, or null when it has none.
pub open spec fn member_value(v: JValue, k: Seq<char>) -> JValue {
    match v.get(k) {
        Some(x) => x,
        None => JValue::Null,
    }
}

/// A Chat function tool that carries `tool`'s name, description, parameters
/// and strictness (null where `tool` has none) in its `"function"` object.
pub open spec fn carries_function_fields(t: JValue, tool: JValue) -> bool {
    &&& has_type(t, "function"@)
    &&& t.get("function"@) matches Some(f) && {
        &&& f.get("name"@) == Some(member_value(tool, "name"@))
        &&& f.get("description"@) == Some(member_value(tool, "description"@))
        &&& f.get("parameters"@) == Some(member_value(tool, "parameters"@))
        &&& f.get("strict"@) == Some(member_value(tool, "strict"@))
    }
}

/// The names a tool's members move under are all different.
proof fn lemma_tool_member_names_differ()
    ensures
        "type"@ != "function"@,
        "type"@ != "name"@,
        "type"@ != "description"@,
        "type"@ != "parameters"@,
        "type"@ != "strict"@,
        "function"@ != "name"@,
        "function"@ != "description"@,
        "function"@ != "parameters"@,
        "function"@ != "strict"@,
        "name"@ != "description"@,
        "name"@ != "parameters"@,
        "name"@ != "strict"@,
        "description"@ != "parameters"@,
        "description"@ != "strict"@,
        "parameters"@ != "strict"@,
{
    reveal_strlit("type");
    reveal_strlit("function");
    reveal_strlit("name");
    reveal_strlit("description");
    reveal_strlit("parameters");
    reveal_strlit("strict");
    assert("type"@.len() == 4);
    assert("function"@.len() == 8);
    assert("name"@.len() == 4);
    assert("description"@.len() == 11);
    assert("parameters"@.len() == 10);
    assert("strict"@.len() == 6);
    assert("type"@[0] != "name"@[0]);
}

/// A function tool with no `"function"` member of its own converts to a
/// Chat function tool that carries its fields.
proof fn lemma_tool_converted_fields(tool: JValue)
    requires
        has_type(tool, "function"@),
        tool.get("function"@) is None,
    ensures
        tool_converted(tool) matches Some(t) && carries_function_fields(t, tool),
{
    lemma_tool_member_names_differ();
    let es = tool->Object_0;
    let func = JValue::Object(
        seq![
            ("name"@, member_or_null(es, "name"@)),
            ("description"@, member_or_null(es, "description"@)),
            ("parameters"@, member_or_null(es, "parameters"@)),
            ("strict"@, member_or_null(es, "strict"@)),
        ],
    );
    let base: Entries = seq![("type"@, jstr("function"@)), ("function"@, func)];
    let extra = tool_extra_entries(es);
    let r1 = remove_key(es, "type"@);
    let r2 = remove_key(r1, "name"@);
    let r3 = remove_key(r2, "description"@);
    let r4 = remove_key(r3, "parameters"@);
    lemma_lookup_remove(es, "type"@, "type"@);
    lemma_lookup_remove(r1, "name"@, "type"@);
    lemma_lookup_remove(r2, "description"@, "type"@);
    lemma_lookup_remove(r3, "parameters"@, "type"@);
    lemma_lookup_remove(r4, "strict"@, "type"@);
    lemma_lookup_remove(es, "type"@, "function"@);
    lemma_lookup_remove(r1, "name"@, "function"@);
    lemma_lookup_remove(r2, "description"@, "function"@);
    lemma_lookup_remove(r3, "parameters"@, "function"@);
    lemma_lookup_remove(r4, "strict"@, "function"@);
    lemma_lacks_key_lookup(extra, "type"@);
    lemma_lacks_key_lookup(extra, "function"@);
    lemma_lookup_insert_all(base, extra, "type"@);
    lemma_lookup_insert_all(base, extra, "function"@);
    lemma_lookup_only_entry(base, 0);
    lemma_lookup_only_entry(base, 1);
    let fes = func->Object_0;
    lemma_lookup_only_entry(fes, 0);
    lemma_lookup_only_entry(fes, 1);
    lemma_lookup_only_entry(fes, 2);
    lemma_lookup_only_entry(fes, 3);
    assert(member_or_null(es, "name"@) == member_value(tool, "name"@));
    assert(member_or_null(es, "description"@) == member_value(tool, "description"@));
    assert(member_or_null(es, "parameters"@) == member_value(tool, "parameters"@));
    assert(member_or_null(es, "strict"@) == member_value(tool, "strict"@));
}

/// A list of function tools (none with a `"function"` member of its own)
/// converts one for one, in order, each Chat tool carrying the name,
/// description, parameters and strictness of its Responses tool.
pub proof fn law_function_tools_keep_their_fields(tools: Seq<JValue>)
    requires
        forall|i: int|
            0 <= i < tools.len() ==> has_type(#[trigger] tools[i], "function"@) && tools[i].get(
                "function"@,
            ) is None,
    ensures
        tools_converted(tools).len() == tools.len(),
        forall|i: int|
            0 <= i < tools.len() ==> carries_function_fields(
                #[trigger] tools_converted(tools)[i],
                tools[i],
            ),
    decreases tools.len(),
{
    if tools.len() > 0 {
        let d = tools.drop_last();
        assert forall|i: int| 0 <= i < d.len() implies has_type(#[trigger] d[i], "function"@)
            && d[i].get("function"@) is None by {
            assert(d[i] == tools[i]);
        }
        law_function_tools_keep_their_fields(d);
        assert(tools.last() == tools[tools.len() - 1]);
        lemma_tool_converted_fields(tools.last());
        let out = tools_converted(tools);
        assert forall|i: int| 0 <= i < tools.len() implies carries_function_fields(
            #[trigger] out[i],
            tools[i],
        ) by {
            if i < d.len() {
                assert(out[i] == tools_converted(d)[i]);
                assert(d[i] == tools[i]);
            }
        }
    }
}


/// The one tool call of the message a `function_call` item becomes.
pub open spec fn item_tool_call(item: JValue) -> JValue {
    function_call_message(item).get("tool_calls"@)->Some_0->Array_0[0]
}

/// An assistant message whose tool calls are exactly `calls`.
pub open spec fn holds_calls(m: JValue, calls: Seq<JValue>) -> bool {
    &&& m.get_str("role"@) == Some("assistant"@)
    &&& m.get("tool_calls"@) == Some(JValue::Array(calls))
}

/// The message of a `function_call` item holds its one tool call, and no
/// removal marker.
proof fn lemma_function_call_message_shape(item: JValue)
    ensures
        holds_calls(function_call_message(item), seq![item_tool_call(item)]),
        !is_marked(function_call_message(item)),
{
    lemma_message_member_names_differ();
    let m0 = function_call_message(item);
    let mes = m0->Object_0;
    lemma_lookup_only_entry(mes, 0);
    lemma_lookup_only_entry(mes, 2);
    lemma_lookup_no_entry(mes, "__remove__"@);
    let calls = mes[2].1->Array_0;
    assert(calls =~= seq![calls[0]]);
}

/// Messages none of which is marked are all kept.
proof fn lemma_unmarked_none(ms: Seq<JValue>)
    requires
        forall|i: int| 0 <= i < ms.len() ==> !is_marked(#[trigger] ms[i]),
    ensures
        unmarked(ms) == ms,
    decreases ms.len(),
{
    if ms.len() > 0 {
        let d = ms.drop_last();
        assert forall|i: int| 0 <= i < d.len() implies !is_marked(#[trigger] d[i]) by {
            assert(d[i] == ms[i]);
        }
        lemma_unmarked_none(d);
        assert(!is_marked(ms[ms.len() - 1]));
        assert(d.push(ms.last()) =~= ms);
    }
}

/// A run of messages each holding one tool call merges into one message
/// holding all of them, in order.
proof fn lemma_merged_calls(ms: Seq<JValue>, calls: Seq<JValue>)
    requires
        ms.len() > 0,
        ms.len() == calls.len(),
        forall|i: int| 0 <= i < ms.len() ==> holds_calls(#[trigger] ms[i], seq![calls[i]]),
    ensures
        merged_messages(ms).len() == 1,
        holds_calls(merged_messages(ms)[0], calls),
    decreases ms.len(),
{
    lemma_message_member_names_differ();
    let d = ms.drop_last();
    let dc = calls.drop_last();
    assert(holds_calls(ms[ms.len() - 1], seq![calls[calls.len() - 1]]));
    assert(ms.last() == ms[ms.len() - 1]);
    if d.len() == 0 {
        assert(merged_messages(d) =~= Seq::<JValue>::empty());
        assert(calls =~= seq![calls[0]]);
    } else {
        assert forall|i: int| 0 <= i < d.len() implies holds_calls(#[trigger] d[i], seq![dc[i]]) by {
            assert(d[i] == ms[i]);
            assert(dc[i] == calls[i]);
        }
        lemma_merged_calls(d, dc);
        let acc = merged_messages(d);
        let last = acc[0];
        let cur = ms.last();
        assert(acc.last() == last);
        assert(is_assistant_with_tools(cur));
        assert(is_assistant_with_tools(last));
        let les = last->Object_0;
        let ces = cur->Object_0;
        let les1 = insert_entry(les, "tool_calls"@, JValue::Array(dc + seq![calls.last()]));
        lemma_lookup_insert(les, "tool_calls"@, JValue::Array(dc + seq![calls.last()]), "role"@);
        lemma_lookup_insert(les, "tool_calls"@, JValue::Array(dc + seq![calls.last()]), "tool_calls"@);
        lemma_lookup_insert(les, "tool_calls"@, JValue::Array(dc + seq![calls.last()]), "content"@);
        assert(dc + seq![calls.last()] =~= calls);
        match lookup(les1, "content"@) {
            Some(JValue::Null) | None => match lookup(ces, "content"@) {
                Some(cc) => {
                    lemma_lookup_insert(les1, "content"@, cc, "role"@);
                    lemma_lookup_insert(les1, "content"@, cc, "tool_calls"@);
                },
                None => {},
            },
            _ => {},
        }
        assert(holds_calls(merged_pair(last, cur), calls));
        assert(merged_messages(ms) == acc.update(0, merged_pair(last, cur)));
    }
}

/// An input made of `function_call` items only (with no instructions to go
/// first) becomes one assistant message that carries all their tool calls,
/// in input order: the `i`-th tool call has the `i`-th item's call id, name
/// and arguments.
pub proof fn law_function_calls_merge_in_order(es: Entries, items: Seq<JValue>)
    requires
        lookup(es, "input"@) == Some(JValue::Array(items)),
        lookup(es, "instructions"@) is None,
        lookup(es, "messages"@) is None,
        items.len() > 0,
        forall|i: int|
            0 <= i < items.len() ==> (#[trigger] items[i]).get_str("type"@) == Some("function_call"@),
    ensures
        lookup(body_entries_converted(es), "messages"@) matches Some(JValue::Array(ms)) && (ms.len()
            == 1 && ms[0].get_str("role"@) == Some("assistant"@) && (ms[0].get(
            "tool_calls"@,
        ) matches Some(JValue::Array(tcs)) && (tcs.len() == items.len() && forall|i: int|
            0 <= i < items.len() ==> {
                &&& (#[trigger] tcs[i]).get_str("type"@) == Some("function"@)
                &&& forall|c: Seq<char>|
                    items[i].get_str("call_id"@) == Some(c) ==> tcs[i].get_str("id"@) == Some(c)
                &&& tcs[i].get("function"@) matches Some(f) && {
                    &&& forall|n: Seq<char>|
                        items[i].get_str("name"@) == Some(n) ==> f.get_str("name"@) == Some(n)
                    &&& forall|a: Seq<char>|
                        items[i].get_str("arguments"@) == Some(a) ==> f.get_str("arguments"@)
                            == Some(a)
                }
            }))),
{
    lemma_message_member_names_differ();
    law_members_are_renamed(es);
    lemma_messages_converted_first(items);
    let conv = messages_converted(items).0;
    let calls = Seq::new(items.len(), |i: int| item_tool_call(items[i]));
    assert forall|i: int| 0 <= i < conv.len() implies conv[i] == function_call_message(
        #[trigger] items[i],
    ) by {
        lemma_messages_converted_at(items, i);
    }
    assert forall|i: int| 0 <= i < conv.len() implies !is_marked(#[trigger] conv[i]) && holds_calls(
        conv[i],
        seq![calls[i]],
    ) by {
        assert(conv[i] == function_call_message(items[i]));
        lemma_function_call_message_shape(items[i]);
    }
    lemma_unmarked_none(conv);
    lemma_merged_calls(conv, calls);
    assert(chat_messages(JValue::Array(items), None) == merged_messages(conv));
    let tcs = calls;
    assert forall|i: int| 0 <= i < items.len() implies {
        &&& (#[trigger] tcs[i]).get_str("type"@) == Some("function"@)
        &&& forall|c: Seq<char>|
            items[i].get_str("call_id"@) == Some(c) ==> tcs[i].get_str("id"@) == Some(c)
        &&& tcs[i].get("function"@) matches Some(f) && {
            &&& forall|n: Seq<char>|
                items[i].get_str("name"@) == Some(n) ==> f.get_str("name"@) == Some(n)
            &&& forall|a: Seq<char>|
                items[i].get_str("arguments"@) == Some(a) ==> f.get_str("arguments"@) == Some(a)
        }
    } by {
        let item = items[i];
        let m0 = function_call_message(item);
        let mes = m0->Object_0;
        lemma_lookup_only_entry(mes, 2);
        let tc = tcs[i];
        assert(tc == item_tool_call(item));
        let tes = tc->Object_0;
        lemma_lookup_only_entry(tes, 0);
        lemma_lookup_only_entry(tes, 1);
        lemma_lookup_only_entry(tes, 2);
        let fes = tes[2].1->Object_0;
        lemma_lookup_only_entry(fes, 0);
        lemma_lookup_only_entry(fes, 1);
    }
}

} // verus!
