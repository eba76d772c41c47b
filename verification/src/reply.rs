//! Answers that the proxy gives itself.

use crate::headers::{header_fields, typed, typed_headers};
use crate::json::{exact_within, json_parse, json_text, Json, JsonView, MAX_DEPTH};
use vstd::prelude::*;
use vstd::utf8::encode_utf8;

verus! {

broadcast use vstd::string::group_string_axioms;

/// An answer with its whole body.
#[derive(Debug)]
pub struct Reply {
    pub status: u16,
    pub headers: http::HeaderMap,
    pub body: Vec<u8>,
}

/// An answer with its whole body.
pub struct ReplyView {
    pub status: u16,
    pub headers: Map<Seq<char>, Seq<Seq<u8>>>,
    pub body: Seq<u8>,
}

impl View for Reply {
    type V = ReplyView;

    open spec fn view(&self) -> ReplyView {
        ReplyView { status: self.status, headers: header_fields(self.headers), body: self.body@ }
    }
}

/// The body of an error.
pub open spec fn error_body(message: Seq<char>, error_type: Seq<char>) -> JsonView {
    JsonView::Object(
        map![
            "error"@ => JsonView::Object(
                map!["message"@ => JsonView::Str(message), "type"@ => JsonView::Str(error_type)],
            ),
        ],
    )
}

/// The answer that tells of an error.
pub open spec fn error_reply(
    status: u16,
    message: Seq<char>,
    error_type: Seq<char>,
) -> ReplyView {
    ReplyView {
        status,
        headers: typed("application/json"@),
        body: encode_utf8(json_text(error_body(message, error_type))),
    }
}

/// The answer that tells of an error. Its body can be read back.
pub fn error_response(status: u16, message: &str, error_type: &str) -> (r: Reply)
    ensures
        r@ == error_reply(status, message@, error_type@),
        json_parse(r.body@) == Some(error_body(message@, error_type@)),
{
    let error = Json::object().with("message", Json::string(message)).with(
        "type",
        Json::string(error_type),
    );
    let body = Json::object().with("error", error);
    assert(exact_within(body@, MAX_DEPTH as nat)) by {
        reveal_with_fuel(exact_within, 4);
    }
    proof {
        reveal_strlit("application/json");
    }
    Reply { status, headers: typed_headers("application/json"), body: body.to_bytes() }
}

/// An error is told as JSON, with its message and its type in the member `error`.
pub proof fn law_error_is_told(status: u16, message: Seq<char>, error_type: Seq<char>)
    ensures
        ({
            let reply = error_reply(status, message, error_type);
            let body = error_body(message, error_type);
            let error = body.get("error"@);
            &&& reply.status == status
            &&& reply.body == encode_utf8(json_text(body))
            &&& reply.headers == Map::empty().insert(
                "content-type"@,
                seq![encode_utf8("application/json"@)],
            )
            &&& error is Some
            &&& error->0.get("message"@) == Some(JsonView::Str(message))
            &&& error->0.get("type"@) == Some(JsonView::Str(error_type))
        }),
{
    reveal_strlit("message");
    reveal_strlit("type");
    assert("message"@.len() == 7);
    assert("type"@.len() == 4);
}

}
