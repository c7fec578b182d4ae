//! The HTTP headers the Chat Completions client sets and reads, on http's
//! `HeaderMap`.
//!
//! A header map is described by [`header_values`]: for each header name (in
//! lower case), the values it holds, in order.
use vstd::prelude::*;

use crate::json::opt_view;
use crate::request::owned;

verus! {

#[verifier::external_type_specification]
#[verifier::external_body]
#[verifier::reject_recursive_types(T)]
pub struct ExHeaderMap<T>(http::HeaderMap<T>);

#[verifier::external_type_specification]
#[verifier::external_body]
pub struct ExHeaderValue(http::HeaderValue);

/// The values of each header of a map, by lower-case name, in order.
pub uninterp spec fn header_values(h: http::HeaderMap) -> Map<Seq<char>, Seq<Seq<u8>>>;

/// http's rule for header value text: visible ASCII or a tab.
pub open spec fn visible_ascii(c: u32) -> bool {
    (32 <= c < 127) || c == 9
}

/// Every character is allowed in a header value.
pub open spec fn is_header_value_text(s: Seq<char>) -> bool {
    forall|i: int| 0 <= i < s.len() ==> visible_ascii(#[trigger] s[i] as u32)
}

/// The bytes of ASCII text.
pub open spec fn ascii_bytes(s: Seq<char>) -> Seq<u8> {
    s.map_values(|c: char| c as u8)
}

/// The text of header value bytes, when every byte is visible ASCII or a tab.
pub open spec fn header_text_of(bytes: Seq<u8>) -> Option<Seq<char>> {
    if forall|i: int| 0 <= i < bytes.len() ==> visible_ascii(#[trigger] bytes[i] as u32) {
        Some(bytes.map_values(|b: u8| b as char))
    } else {
        None
    }
}

/// A header name made of lower-case letters, digits and dashes.
pub open spec fn is_lower_token(s: Seq<char>) -> bool {
    s.len() > 0 && forall|i: int|
        0 <= i < s.len() ==> ('a' <= #[trigger] s[i] <= 'z' || '0' <= s[i] <= '9' || s[i] == '-')
}

/// http's `HeaderMap::contains_key` with a lower-case name: whether the map
/// holds a value for it.
#[verifier::external_body]
fn header_map_contains(h: &http::HeaderMap, name: &str) -> (r: bool)
    requires
        is_lower_token(name@),
    ensures
        r == header_values(*h).contains_key(name@),
{
    h.contains_key(name)
}

/// http's `HeaderMap::keys_len`: the number of distinct names in the map.
#[verifier::external_body]
fn header_key_count(h: &http::HeaderMap) -> (r: usize)
    ensures
        r == header_values(*h).dom().len(),
{
    h.keys_len()
}

/// http's `HeaderMap::insert` of a static name (made with
/// `HeaderName::from_static`) and a value made with `HeaderValue::from_str`:
/// the name afterwards holds exactly this value; the rest of the map is
/// unchanged.
///
/// `from_static` panics on text that is not a lower-case header name of at
/// most 65535 bytes; `from_str` refuses bytes below 32 other than tab, and
/// 127, so header value text always converts.  The insert panics when the map
/// would have to grow past 2^15 index slots; with fewer than 6554 names a
/// table that large never needs to grow again (it rebuilds in place instead),
/// whatever the map's history, so that bound is required.
#[verifier::external_body]
fn header_map_insert(h: &mut http::HeaderMap, name: &'static str, value: &str)
    requires
        is_lower_token(name@),
        name@.len() <= 65535,
        is_header_value_text(value@),
        header_values(*old(h)).dom().len() < 6554,
    ensures
        header_values(*final(h)) == header_values(*old(h)).insert(
            name@,
            seq![ascii_bytes(value@)],
        ),
{
    if let Ok(v) = http::HeaderValue::from_str(value) {
        h.insert(http::HeaderName::from_static(name), v);
    }
}

/// http's `HeaderMap::get` with a lower-case name, then `HeaderValue::to_str`:
/// the first value the name holds, as text, when it holds one and every byte
/// of it is visible ASCII or a tab.
#[verifier::external_body]
fn header_map_get_text<'a>(h: &'a http::HeaderMap, name: &str) -> (r: Option<&'a str>)
    requires
        is_lower_token(name@),
    ensures
        opt_str_view(r) == (if header_values(*h).contains_key(name@) && header_values(
            *h,
        )[name@].len() > 0 {
            header_text_of(header_values(*h)[name@][0])
        } else {
            None
        }),
{
    match h.get(name) {
        Some(v) => v.to_str().ok(),
        None => None,
    }
}

/// The view of an optional string slice.
pub open spec fn opt_str_view(o: Option<&str>) -> Option<Seq<char>> {
    match o {
        Some(s) => Some(s@),
        None => None,
    }
}

/// The model a response names in its `openai-model` header, when the header
/// is there and its first value is text.
pub open spec fn server_model_of(h: http::HeaderMap) -> Option<Seq<char>> {
    if header_values(h).contains_key("openai-model"@) && header_values(h)["openai-model"@].len()
        > 0 {
        header_text_of(header_values(h)["openai-model"@][0])
    } else {
        None
    }
}

/// The model a response names in its `openai-model` header.
pub fn server_model(headers: &http::HeaderMap) -> (r: Option<String>)
    ensures
        opt_view(r) == server_model_of(*headers),
{
    proof {
        reveal_strlit("openai-model");
    }
    match header_map_get_text(headers, "openai-model") {
        Some(s) => Some(owned(s)),
        None => None,
    }
}

/// The most header names a map may hold for one more to be inserted safely.
pub open spec fn insert_bound() -> nat {
    6554
}

/// Ask for an event stream: `accept` holds just `text/event-stream`.
pub fn with_event_stream_accept(headers: &mut http::HeaderMap)
    requires
        header_values(*old(headers)).dom().len() < insert_bound(),
    ensures
        header_values(*final(headers)) == header_values(*old(headers)).insert(
            "accept"@,
            seq![ascii_bytes("text/event-stream"@)],
        ),
{
    proof {
        reveal_strlit("accept");
        reveal_strlit("text/event-stream");
    }
    header_map_insert(headers, "accept", "text/event-stream");
}

/// The headers after `agent` is put in as `user-agent` where they have none.
pub open spec fn with_agent(h: Map<Seq<char>, Seq<Seq<u8>>>, agent: Seq<char>) -> Map<
    Seq<char>,
    Seq<Seq<u8>>,
> {
    if h.contains_key("user-agent"@) {
        h
    } else {
        h.insert("user-agent"@, seq![ascii_bytes(agent)])
    }
}

/// Set `user-agent` to `agent` unless the headers already have one (some
/// providers serve `/chat/completions` only to coding agents, and tell them
/// by this header).
pub fn with_default_user_agent(headers: &mut http::HeaderMap, agent: &str)
    requires
        is_header_value_text(agent@),
        header_values(*old(headers)).dom().len() < insert_bound(),
    ensures
        header_values(*final(headers)) == with_agent(header_values(*old(headers)), agent@),
{
    proof {
        reveal_strlit("user-agent");
    }
    if !header_map_contains(headers, "user-agent") {
        header_map_insert(headers, "user-agent", agent);
    }
}

/// [`with_event_stream_accept`] when the map has room for another name; gives
/// back whether it did (the map is left as it was otherwise).
pub fn accept_event_stream(headers: &mut http::HeaderMap) -> (done: bool)
    ensures
        done == (header_values(*old(headers)).dom().len() < insert_bound()),
        done ==> header_values(*final(headers)) == header_values(*old(headers)).insert(
            "accept"@,
            seq![ascii_bytes("text/event-stream"@)],
        ),
        !done ==> header_values(*final(headers)) == header_values(*old(headers)),
{
    if header_key_count(headers) < 6554 {
        with_event_stream_accept(headers);
        true
    } else {
        false
    }
}

/// [`with_default_user_agent`] where it can be done safely: always when the
/// headers already have a `User-Agent` (nothing changes), else when the map
/// has room for another name.  Gives back whether the headers are as
/// [`with_agent`] says (they are left as they were otherwise).
pub fn default_user_agent(headers: &mut http::HeaderMap, agent: &str) -> (done: bool)
    requires
        is_header_value_text(agent@),
    ensures
        done == (header_values(*old(headers)).contains_key("user-agent"@) || header_values(
            *old(headers),
        ).dom().len() < insert_bound()),
        done ==> header_values(*final(headers)) == with_agent(header_values(*old(headers)), agent@),
        !done ==> header_values(*final(headers)) == header_values(*old(headers)),
{
    proof {
        reveal_strlit("user-agent");
    }
    if header_map_contains(headers, "user-agent") {
        true
    } else if header_key_count(headers) < 6554 {
        with_default_user_agent(headers, agent);
        true
    } else {
        false
    }
}

} // verus!
