//! What the log shows of a request.

use crate::json::{json_parse, Json, JsonView};
use crate::text::opt_text;
use vstd::prelude::*;

verus! {

broadcast use vstd::string::group_string_axioms;

/// The model that a body names. An empty body names none.
pub open spec fn model_of(body: Seq<u8>) -> Option<Seq<char>> {
    match json_parse(body) {
        Some(value) if body.len() > 0 => value.str_at("model"@),
        _ => None,
    }
}

/// The model that a body names in its member `model`. A body that is not JSON, or that names
/// none, gives nothing.
pub fn extract_model(body: &[u8]) -> (r: Option<String>)
    ensures
        opt_text(r) == model_of(body@),
{
    if body.len() == 0 {
        return None;
    }
    match Json::parse(body) {
        Some(value) => named_model(&value),
        None => None,
    }
}

/// The model that a JSON value names in its member `model`.
pub fn named_model(value: &Json) -> (r: Option<String>)
    ensures
        opt_text(r) == value@.str_at("model"@),
{
    match value.str_at("model") {
        Some(model) => Some(model.to_owned()),
        None => None,
    }
}

/// A body names the model that stands in its member `model` as a string, and nothing else names
/// one.
pub proof fn law_named_model(body: Seq<u8>, model: Seq<char>)
    requires
        body.len() > 0,
    ensures
        model_of(body) == Some(model) <==> match json_parse(body) {
            Some(JsonView::Object(members)) => members.contains_key("model"@) && members["model"@]
                == JsonView::Str(model),
            _ => false,
        },
        model_of(Seq::empty()) is None,
{
}

}
