# llm-proxy

A thin local proxy for LLM APIs: automatic retry, protocol transform, model-level routing. The
library in `src/` makes the decisions and does the conversions; it is written in Verus, and its
behaviour is stated in contracts and proved. The program in `app/` does the input and output
around it.

## What it does

- A request to `/{route}/{path}` goes to the target of the route. A body that names a model may
  override what the route says: the target, the transform, the name of the model, the retry
  settings.
- A request that fails, with a status that is worth another attempt or without reaching the
  upstream, is tried again with exponential backoff and jitter. It stops when it succeeds, has
  been tried too often, has waited too long, or the client is gone. An answer that has started
  is not tried again.
- With the transform `responses_to_chat`, requests to the Responses API become requests to the
  Chat Completions API, and the answers are turned back, as one document or as a stream.
- `/healthz` and `/metrics` are answered by the proxy itself.

## Layout

| Place | What is there |
|-------|---------------|
| `src/config.rs` | routes, models, defaults; what overrides what; what makes a configuration valid |
| `src/proxy/` | routes, plans, attempts, rewriting of models, passing answers on |
| `src/transform/` | the conversion of requests, answers and streams, and what holds of every stream |
| `src/retry.rs`, `src/headers.rs` | backoff, delays that an upstream asks for, header fields |
| `src/reply.rs`, `src/health.rs`, `src/metrics.rs`, `src/server.rs`, `src/log.rs` | the rest of the proxy |
| `src/json.rs`, `src/sse.rs`, `src/text.rs`, `src/entries.rs`, `src/ids.rs`, `src/clock.rs` | what all of this is built on |
| `tests/` | tests of the library |
| `app/` | the program: arguments, configuration file, sockets, clients, metrics registry |

What the library takes on trust of other crates stands in functions marked
`#[verifier::external_body]` with the contract that is believed: reading and writing JSON
(`serde_json`), URIs and header fields (`http`), reading HTTP dates (`httpdate`), random numbers (`rand`),
identifiers (`uuid`), and a few functions of the standard library.
