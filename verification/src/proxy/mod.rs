//! The proxy itself: which upstream a request goes to, when it is tried again, and how the
//! answer is passed on.

pub mod attempts;
pub mod plan;
pub mod relay;
pub mod rewrite;
pub mod route;

pub use self::attempts::{Action, Attempts, Event, Phase};
pub use self::plan::{has_body, plan, plan_for, unreadable_body, Plan};
pub use self::relay::{
    change_body, choose_relay, passes_error_on, relay_head, Change, ChatStream, Head, Relay,
    SseRewriter,
};
pub use self::rewrite::{
    extract_model_from_sse_line, rewrite_model_in_body, rewrite_model_in_json,
    rewrite_model_in_sse_line,
};
pub use self::route::{dispatch, build_upstream_url, match_route, Dispatch, Routed};
