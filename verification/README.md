# chat_completions

Lets a client that speaks the OpenAI Responses API use providers that only
offer the Chat Completions API (Volcengine/Doubao, Kimi, DeepSeek, GLM, Mimo).
The conversion logic is verified with Verus.

- `src/request.rs`: a Responses request body turned into a Chat Completions
  body (`convert_request_body`), stated over a JSON model and proved, with the
  laws of the conversion (`law_*`).
- `src/stream.rs`: the Chat Completions event stream turned into Responses
  events, as a state machine (`ChatStreamState::open` / `step`), with laws
  over whole runs of it.
- `src/models.rs`: the `/models` request and the model list read from its
  reply.
- `src/headers.rs`: the headers set on and read from http's `HeaderMap`.
- `src/json.rs`, `src/text.rs`: the JSON model (and serde_json's parser behind
  it) and string helpers.
- `app/`: the network side (reqwest, tokio, eventsource-stream), which sends
  what the library decides and feeds back what arrives.
