//! The provider's OpenAI-compatible `/models` endpoint: the request to send,
//! and the model list read from the reply.
use vstd::prelude::*;

use crate::json::{lemma_array_view, opt_view, parse_json, parsed_json, values_view, JValue, Json};
use crate::request::owned;

verus! {

/// The `/models` request to send.
pub struct ModelsRequest {
    /// The URL: the base URL followed by `/models`.
    pub url: String,
    /// The bearer token to authenticate with, if there is one.
    pub bearer: Option<String>,
    /// The `User-Agent` header value.
    pub user_agent: String,
    /// How long the request may take, in seconds.
    pub timeout_secs: u64,
}

/// What came back from the `/models` request.
pub enum ModelsReply {
    /// The request could not be sent.
    SendFailed,
    /// The server answered.  `body` is its body text, `None` when reading
    /// the body failed.
    Answered { status: u16, body: Option<String> },
}

/// Why no model list could be read.
#[derive(Debug, PartialEq)]
pub enum ModelsError {
    /// The server answered with success but its body could not be read.
    UnreadableBody,
}

/// Whether a model is offered in the model picker.
#[derive(Debug, PartialEq, Eq, Clone, Copy, Structural)]
pub enum ModelVisibility {
    List,
    Hide,
}

/// A model as the model picker shows it: its id (`slug`), the name shown,
/// whether it is listed, and its place in the list (0 first) when the list
/// gives one.
#[derive(Debug, PartialEq)]
pub struct ModelEntry {
    pub slug: String,
    pub display_name: String,
    pub visibility: ModelVisibility,
    pub priority: Option<i32>,
}

/// View of a [`ModelEntry`].
pub struct ModelEntryV {
    pub slug: Seq<char>,
    pub display_name: Seq<char>,
    pub visibility: ModelVisibility,
    pub priority: Option<i32>,
}

impl View for ModelEntry {
    type V = ModelEntryV;

    open spec fn view(&self) -> ModelEntryV {
        ModelEntryV {
            slug: self.slug@,
            display_name: self.display_name@,
            visibility: self.visibility,
            priority: self.priority,
        }
    }
}

/// The views of a list of model entries.
pub open spec fn entries_view(ms: Seq<ModelEntry>) -> Seq<ModelEntryV> {
    ms.map_values(|m: ModelEntry| m@)
}

/// The picker entry of a model id: shown under its id, and listed.
pub open spec fn listed_entry(id: Seq<char>, priority: Option<i32>) -> ModelEntryV {
    ModelEntryV { slug: id, display_name: id, visibility: ModelVisibility::List, priority }
}

/// View of a [`ModelsReply`].
pub enum ModelsReplyV {
    SendFailed,
    Answered { status: u16, body: Option<Seq<char>> },
}

impl View for ModelsReply {
    type V = ModelsReplyV;

    open spec fn view(&self) -> ModelsReplyV {
        match self {
            ModelsReply::SendFailed => ModelsReplyV::SendFailed,
            ModelsReply::Answered { status, body } => ModelsReplyV::Answered {
                status: *status,
                body: opt_view(*body),
            },
        }
    }
}

/// http's `StatusCode::is_success`: the status is in 200..=299.
pub open spec fn is_success_status(code: u16) -> bool {
    200 <= code < 300
}

/// The string `"id"`s of the entries, in order; entries without one are skipped.
pub open spec fn ids_in(entries: Seq<JValue>) -> Seq<Seq<char>>
    decreases entries.len(),
{
    if entries.len() == 0 {
        Seq::empty()
    } else {
        match entries.last().get_str("id"@) {
            Some(id) => ids_in(entries.drop_last()).push(id),
            None => ids_in(entries.drop_last()),
        }
    }
}

/// The model ids of an OpenAI-compatible `{"data": [{"id": ...}, ...]}` body;
/// nothing when the body did not parse or has no `"data"` array.
pub open spec fn model_ids_of(body: Option<JValue>) -> Seq<Seq<char>> {
    match body {
        Some(v) => match v.get("data"@) {
            Some(JValue::Array(entries)) => ids_in(entries),
            _ => Seq::empty(),
        },
        None => Seq::empty(),
    }
}

/// The model ids listed by a reply, for the models endpoint client: none when
/// the request failed or the status is not a success, an error when a
/// successful reply's body could not be read.
pub open spec fn listed_ids(reply: ModelsReplyV) -> Result<Seq<Seq<char>>, ModelsError> {
    match reply {
        ModelsReplyV::SendFailed => Ok(Seq::empty()),
        ModelsReplyV::Answered { status, body } => if !is_success_status(status) {
            Ok(Seq::empty())
        } else {
            match body {
                None => Err(ModelsError::UnreadableBody),
                Some(text) => Ok(model_ids_of(parsed_json(text))),
            }
        },
    }
}

/// Ids listed oldest first, as picker entries: newest first, with priorities
/// 0, 1, ... in that order.
pub open spec fn ranked(ids: Seq<Seq<char>>) -> Seq<ModelEntryV> {
    let r = ids.reverse();
    Seq::new(r.len(), |i: int| listed_entry(r[i], Some(i as i32)))
}

/// Ids as picker entries in the same order, with no priority.
pub open spec fn unranked(ids: Seq<Seq<char>>) -> Seq<ModelEntryV> {
    ids.map_values(|id: Seq<char>| listed_entry(id, None))
}

/// The picker list of a reply: the listed ids ranked newest first; nothing on
/// any failure.
pub open spec fn picker_ids(reply: ModelsReplyV) -> Seq<ModelEntryV> {
    match reply {
        ModelsReplyV::Answered { status, body: Some(text) } => if is_success_status(status) {
            ranked(model_ids_of(parsed_json(text)))
        } else {
            Seq::empty()
        },
        _ => Seq::empty(),
    }
}

/// The token to authenticate with: the provider's API key when it resolved to
/// one, else the configured bearer token.
pub open spec fn bearer_token_of<E>(api_key: Result<Option<String>, E>, fallback: Option<String>) -> Option<
    Seq<char>,
> {
    match api_key {
        Ok(Some(k)) => Some(k@),
        _ => opt_view(fallback),
    }
}

/// Whether a status code means success (http's `StatusCode::is_success`).
pub fn is_success(code: u16) -> (r: bool)
    ensures
        r == is_success_status(code),
{
    200 <= code && code < 300
}

/// The model ids of a `/models` body, in order.
pub fn model_ids_from_body(body: Option<&Json>) -> (r: Vec<String>)
    ensures
        r@.map_values(|s: String| s@) == model_ids_of(
            match body {
                Some(b) => Some(b@),
                None => None,
            },
        ),
{
    let mut out: Vec<String> = Vec::new();
    let entries = match body {
        Some(b) => match b.get("data") {
            Some(Json::Array(a)) => {
                proof {
                    lemma_array_view(*a);
                }
                a
            },
            _ => {
                proof {
                    assert(out@.map_values(|s: String| s@) =~= Seq::<Seq<char>>::empty());
                }
                return out;
            },
        },
        None => {
            proof {
                assert(out@.map_values(|s: String| s@) =~= Seq::<Seq<char>>::empty());
            }
            return out;
        },
    };
    let ghost vv = values_view(entries@);
    let mut i: usize = 0;
    while i < entries.len()
        invariant
            i <= entries.len(),
            vv == values_view(entries@),
            out@.map_values(|s: String| s@) == ids_in(vv.take(i as int)),
        decreases entries.len() - i,
    {
        proof {
            assert(vv.take(i + 1).drop_last() =~= vv.take(i as int));
        }
        match entries[i].get_str("id") {
            Some(id) => {
                let ghost before = out@.map_values(|s: String| s@);
                out.push(id.clone());
                proof {
                    assert(out@.map_values(|s: String| s@) =~= before.push(id@));
                }
            },
            None => {},
        }
        i += 1;
    }
    proof {
        assert(vv.take(i as int) =~= vv);
    }
    out
}

/// The model ids of an OpenAI-compatible `/models` body text, in order;
/// nothing when the text is not JSON or has no `"data"` array.
pub fn parse_model_ids(body: &str) -> (r: Vec<String>)
    ensures
        r@.map_values(|s: String| s@) == model_ids_of(parsed_json(body@)),
{
    let parsed = parse_json(body);
    model_ids_from_body(parsed.as_ref())
}

/// The model ids a `/models` reply lists, as the models endpoint client reads
/// them.
pub fn listed_model_ids(reply: &ModelsReply) -> (r: Result<Vec<String>, ModelsError>)
    ensures
        match r {
            Ok(ids) => listed_ids(reply@) == Ok::<Seq<Seq<char>>, ModelsError>(
                ids@.map_values(|s: String| s@),
            ),
            Err(e) => listed_ids(reply@) == Err::<Seq<Seq<char>>, ModelsError>(e),
        },
{
    match reply {
        ModelsReply::SendFailed => {
            let v: Vec<String> = Vec::new();
            proof {
                assert(v@.map_values(|s: String| s@) =~= Seq::<Seq<char>>::empty());
            }
            Ok(v)
        },
        ModelsReply::Answered { status, body } => {
            if !is_success(*status) {
                let v: Vec<String> = Vec::new();
                proof {
                    assert(v@.map_values(|s: String| s@) =~= Seq::<Seq<char>>::empty());
                }
                Ok(v)
            } else {
                match body {
                    None => Err(ModelsError::UnreadableBody),
                    Some(text) => Ok(parse_model_ids(text.as_str())),
                }
            }
        },
    }
}

/// The picker entry of a model id, with its priority.
fn entry(id: String, priority: Option<i32>) -> (r: ModelEntry)
    ensures
        r@ == listed_entry(id@, priority),
{
    ModelEntry { display_name: id.clone(), slug: id, visibility: ModelVisibility::List, priority }
}

/// Model ids listed oldest first, as picker entries: newest first, with
/// priorities 0, 1, ... in list order.
pub fn newest_first(ids: Vec<String>) -> (r: Vec<ModelEntry>)
    ensures
        entries_view(r@) == ranked(ids@.map_values(|s: String| s@)),
{
    let mut out: Vec<ModelEntry> = Vec::new();
    let ghost idv = ids@.map_values(|s: String| s@);
    let ghost rev = idv.reverse();
    let n = ids.len();
    let mut i: usize = 0;
    while i < n
        invariant
            i <= n,
            n == ids@.len(),
            idv == ids@.map_values(|s: String| s@),
            rev == idv.reverse(),
            entries_view(out@) == Seq::new(i as nat, |k: int| listed_entry(rev[k], Some(k as i32))),
        decreases n - i,
    {
        let ghost before = entries_view(out@);
        let priority: i32 = #[verifier::truncate] (i as i32);
        let m = entry(ids[n - 1 - i].clone(), Some(priority));
        let ghost gm = m@;
        out.push(m);
        proof {
            assert(rev[i as int] == idv[n - 1 - i]);
            assert(priority == (i as int) as i32);
            assert(gm == listed_entry(rev[i as int], Some((i as int) as i32)));
            assert(entries_view(out@) =~= before.push(gm));
            assert(entries_view(out@) =~= Seq::new(
                (i + 1) as nat,
                |k: int| listed_entry(rev[k], Some(k as i32)),
            ));
        }
        i += 1;
    }
    out
}

/// Model ids as picker entries, in the same order, with no priority.
pub fn listed_entries(ids: Vec<String>) -> (r: Vec<ModelEntry>)
    ensures
        entries_view(r@) == unranked(ids@.map_values(|s: String| s@)),
{
    let mut out: Vec<ModelEntry> = Vec::new();
    let ghost idv = ids@.map_values(|s: String| s@);
    let mut i: usize = 0;
    while i < ids.len()
        invariant
            i <= ids.len(),
            idv == ids@.map_values(|s: String| s@),
            entries_view(out@) == unranked(idv.take(i as int)),
        decreases ids.len() - i,
    {
        let ghost before = entries_view(out@);
        let m = entry(ids[i].clone(), None);
        out.push(m);
        proof {
            assert(entries_view(out@) =~= before.push(listed_entry(idv[i as int], None)));
            assert(idv.take(i + 1) =~= idv.take(i as int).push(idv[i as int]));
            assert(unranked(idv.take(i + 1)) =~= unranked(idv.take(i as int)).push(
                listed_entry(idv[i as int], None),
            ));
        }
        i += 1;
    }
    proof {
        assert(idv.take(i as int) =~= idv);
    }
    out
}

/// The model picker list a `/models` reply gives: newest first, with
/// priorities in list order; empty on any failure.
pub fn picker_models(reply: &ModelsReply) -> (r: Vec<ModelEntry>)
    ensures
        entries_view(r@) == picker_ids(reply@),
{
    match reply {
        ModelsReply::Answered { status, body: Some(text) } => {
            if is_success(*status) {
                newest_first(parse_model_ids(text.as_str()))
            } else {
                let out: Vec<ModelEntry> = Vec::new();
                proof {
                    assert(entries_view(out@) =~= Seq::<ModelEntryV>::empty());
                }
                out
            }
        },
        _ => {
            let out: Vec<ModelEntry> = Vec::new();
            proof {
                assert(entries_view(out@) =~= Seq::<ModelEntryV>::empty());
            }
            out
        },
    }
}

/// The models a `/models` reply lists, as the models endpoint client reads
/// them: picker entries in the provider's order, with no priority; an error
/// when a successful reply's body could not be read.
pub fn listed_models(reply: &ModelsReply) -> (r: Result<Vec<ModelEntry>, ModelsError>)
    ensures
        match r {
            Ok(ms) => listed_ids(reply@) is Ok && entries_view(ms@) == unranked(
                listed_ids(reply@)->Ok_0,
            ),
            Err(e) => listed_ids(reply@) == Err::<Seq<Seq<char>>, ModelsError>(e),
        },
{
    match listed_model_ids(reply) {
        Ok(ids) => Ok(listed_entries(ids)),
        Err(e) => Err(e),
    }
}

/// The URL of the `/models` endpoint under a base URL.
pub fn models_url(base_url: &str) -> (r: String)
    ensures
        r@ == base_url@ + "/models"@,
{
    let mut u = owned(base_url);
    u.append("/models");
    u
}

/// The token to authenticate with: the provider's API key when it resolved to
/// one, else the configured bearer token.
pub fn bearer_token<E>(api_key: Result<Option<String>, E>, fallback: Option<String>) -> (r: Option<
    String,
>)
    ensures
        opt_view(r) == bearer_token_of(api_key, fallback),
{
    match api_key {
        Ok(Some(k)) => Some(k),
        _ => fallback,
    }
}

/// The `/models` request for a provider, with a timeout, or `None` when it
/// has no base URL.
pub fn models_request<E>(
    base_url: Option<&str>,
    api_key: Result<Option<String>, E>,
    fallback: Option<String>,
    timeout_secs: u64,
) -> (r: Option<ModelsRequest>)
    ensures
        match r {
            Some(req) => base_url is Some && req.url@ == base_url->0@ + "/models"@ && opt_view(
                req.bearer,
            ) == bearer_token_of(api_key, fallback) && req.user_agent@ == "codex-cli/0.1"@
                && req.timeout_secs == timeout_secs,
            None => base_url is None,
        },
{
    match base_url {
        Some(b) => Some(
            ModelsRequest {
                url: models_url(b),
                bearer: bearer_token(api_key, fallback),
                user_agent: owned("codex-cli/0.1"),
                timeout_secs,
            },
        ),
        None => None,
    }
}

/// The `/models` request the model picker sends when it fills its list: it
/// may take 5 seconds.
pub fn picker_models_request<E>(
    base_url: Option<&str>,
    api_key: Result<Option<String>, E>,
    fallback: Option<String>,
) -> (r: Option<ModelsRequest>)
    ensures
        match r {
            Some(req) => base_url is Some && req.url@ == base_url->0@ + "/models"@ && opt_view(
                req.bearer,
            ) == bearer_token_of(api_key, fallback) && req.user_agent@ == "codex-cli/0.1"@
                && req.timeout_secs == 5,
            None => base_url is None,
        },
{
    models_request(base_url, api_key, fallback, 5)
}

/// The `/models` request the models endpoint client sends: it may take 10
/// seconds.
pub fn endpoint_models_request<E>(
    base_url: Option<&str>,
    api_key: Result<Option<String>, E>,
    fallback: Option<String>,
) -> (r: Option<ModelsRequest>)
    ensures
        match r {
            Some(req) => base_url is Some && req.url@ == base_url->0@ + "/models"@ && opt_view(
                req.bearer,
            ) == bearer_token_of(api_key, fallback) && req.user_agent@ == "codex-cli/0.1"@
                && req.timeout_secs == 10,
            None => base_url is None,
        },
{
    models_request(base_url, api_key, fallback, 10)
}


/// The ids of a list in which every entry has a string `"id"` are those ids,
/// one per entry, in order.
proof fn lemma_ids_of_identified(entries: Seq<JValue>, ids: Seq<Seq<char>>)
    requires
        entries.len() == ids.len(),
        forall|i: int| 0 <= i < entries.len() ==> (#[trigger] entries[i]).get_str("id"@) == Some(ids[i]),
    ensures
        ids_in(entries) == ids,
    decreases entries.len(),
{
    if entries.len() > 0 {
        let d = entries.drop_last();
        assert forall|i: int| 0 <= i < d.len() implies (#[trigger] d[i]).get_str("id"@) == Some(
            ids.drop_last()[i],
        ) by {
            assert(d[i] == entries[i]);
        }
        lemma_ids_of_identified(d, ids.drop_last());
        assert(entries.last() == entries[entries.len() - 1]);
        assert(ids.drop_last().push(ids.last()) =~= ids);
    }
}

/// Entries without a string `"id"` give no model id; the ids given are the
/// entries' ids, in order.
proof fn lemma_ids_come_from_entries(entries: Seq<JValue>)
    ensures
        ids_in(entries).len() <= entries.len(),
        forall|k: int|
            0 <= k < ids_in(entries).len() ==> exists|i: int|
                0 <= i < entries.len() && (#[trigger] entries[i]).get_str("id"@) == Some(
                    #[trigger] ids_in(entries)[k],
                ),
    decreases entries.len(),
{
    if entries.len() > 0 {
        let d = entries.drop_last();
        lemma_ids_come_from_entries(d);
        let r = ids_in(entries);
        assert forall|k: int| 0 <= k < r.len() implies exists|i: int|
            0 <= i < entries.len() && (#[trigger] entries[i]).get_str("id"@) == Some(
                #[trigger] r[k],
            ) by {
            if k < ids_in(d).len() {
                assert(r[k] == ids_in(d)[k]);
                let i = choose|i: int|
                    0 <= i < d.len() && (#[trigger] d[i]).get_str("id"@) == Some(ids_in(d)[k]);
                assert(entries[i] == d[i]);
            } else {
                assert(entries[entries.len() - 1] == entries.last());
            }
        }
    }
}

/// The model ids of a `{"data": [...]}` document: when every entry has a
/// string `"id"`, exactly those ids, one per entry, in the document's order;
/// in any case only ids that some entry has, and no more ids than entries.
/// A document without a `"data"` array, or no document, gives none.
pub proof fn law_model_ids_follow_the_data(body: JValue, entries: Seq<JValue>, ids: Seq<Seq<char>>)
    ensures
        body.get("data"@) == Some(JValue::Array(entries)) ==> model_ids_of(Some(body)).len()
            <= entries.len(),
        body.get("data"@) == Some(JValue::Array(entries)) ==> forall|k: int|
            0 <= k < model_ids_of(Some(body)).len() ==> exists|i: int|
                0 <= i < entries.len() && (#[trigger] entries[i]).get_str("id"@) == Some(
                    #[trigger] model_ids_of(Some(body))[k],
                ),
        body.get("data"@) == Some(JValue::Array(entries)) && entries.len() == ids.len() && (forall|
            i: int,
        | 0 <= i < entries.len() ==> (#[trigger] entries[i]).get_str("id"@) == Some(ids[i]))
            ==> model_ids_of(Some(body)) == ids,
        !(body.get("data"@) matches Some(JValue::Array(_))) ==> model_ids_of(Some(body)).len() == 0,
        model_ids_of(None).len() == 0,
{
    lemma_ids_come_from_entries(entries);
    if body.get("data"@) == Some(JValue::Array(entries)) && entries.len() == ids.len() && (forall|
        i: int,
    | 0 <= i < entries.len() ==> (#[trigger] entries[i]).get_str("id"@) == Some(ids[i])) {
        lemma_ids_of_identified(entries, ids);
    }
}

/// The picker ranking: one entry per id, newest (last listed) first, the
/// `i`-th with priority `i`, shown under its id and listed.  The endpoint's
/// list keeps the provider's order and gives no priority.
pub proof fn law_picker_ranks_newest_first(ids: Seq<Seq<char>>)
    ensures
        ranked(ids).len() == ids.len(),
        forall|i: int|
            0 <= i < ids.len() ==> {
                &&& (#[trigger] ranked(ids)[i]).slug == ids[ids.len() - 1 - i]
                &&& ranked(ids)[i].display_name == ranked(ids)[i].slug
                &&& ranked(ids)[i].visibility == ModelVisibility::List
                &&& ranked(ids)[i].priority == Some(i as i32)
            },
        unranked(ids).len() == ids.len(),
        forall|i: int|
            0 <= i < ids.len() ==> {
                &&& (#[trigger] unranked(ids)[i]).slug == ids[i]
                &&& unranked(ids)[i].display_name == ids[i]
                &&& unranked(ids)[i].visibility == ModelVisibility::List
                &&& unranked(ids)[i].priority is None
            },
{
}

/// The token to authenticate with is the API key when it resolved to one,
/// and the configured bearer token otherwise (also when the key could not be
/// read).
pub proof fn law_api_key_goes_first<E>(api_key: Result<Option<String>, E>, fallback: Option<String>)
    ensures
        forall|k: String| api_key == Ok::<Option<String>, E>(Some(k)) ==> bearer_token_of(
            api_key,
            fallback,
        ) == Some(k@),
        !(api_key matches Ok(Some(_))) ==> bearer_token_of(api_key, fallback) == match fallback {
            Some(t) => Some(t@),
            None => None::<Seq<char>>,
        },
{
}

} // verus!
