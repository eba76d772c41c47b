//! A thin local proxy for LLM APIs: automatic retry, protocol transform, model-level routing.
//!
//! The proxy stands between a client and the APIs of its models. A request names a route in the
//! first segment of its path and, in its body, a model; both together decide which upstream it
//! goes to. A request that fails is tried again after a while, until it succeeds, has been
//! tried too often, has waited too long, or the client is gone. Where a route asks for it,
//! requests to the Responses API are turned into requests to the Chat Completions API, and the
//! answers are turned back, also while they are streaming.
//!
//! This library makes the decisions and does the conversions. What touches the network, the
//! file system, the clock of a wait or the metrics registry is done around it.
//!
//! - [`config`]: routes, models, what overrides what, and what makes a configuration valid.
//! - [`proxy::route`]: which route a request takes. [`proxy::plan`]: what is sent upstream.
//! - [`proxy::attempts`]: when a request is sent, waits, and is answered.
//! - [`proxy::relay`], [`proxy::rewrite`]: how an answer is passed on.
//! - [`transform`]: the conversion between the two protocols.
//! - [`retry`]: backoff with jitter, and the delays that an upstream asks for.
//! - [`headers`], [`reply`], [`health`], [`metrics`], [`log`], [`server`]: the rest of the proxy.
//! - [`json`], [`sse`], [`text`], [`entries`], [`ids`], [`clock`]: what all of this is built on.

pub mod clock;
pub mod config;
pub mod entries;
pub mod headers;
pub mod health;
pub mod ids;
pub mod json;
pub mod log;
pub mod metrics;
pub mod proxy;
pub mod reply;
pub mod retry;
pub mod server;
pub mod sse;
pub mod text;
pub mod transform;
