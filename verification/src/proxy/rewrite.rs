//! Names of models in requests and responses.

use crate::json::{
    exact_within, json_parse, json_text, lemma_alike_strings, lemma_exact_with, reads_back, Json,
    JsonView, MAX_DEPTH,
};
use crate::log::{model_of, named_model};
use crate::sse::event_text;
use crate::text::{
    after_prefix, law_trimmed, law_usual_white_space, opt_text, str_eq, strip_prefix, trim,
    trim_end, trimmed_end, white_space,
};
use crate::transform::stream::{is_done, line_chunk, line_data};
use vstd::prelude::*;
use vstd::slice::slice_to_vec;
use vstd::string::{StrSliceExecFns, StringExecFns};
use vstd::utf8::encode_utf8;

verus! {

broadcast use vstd::string::group_string_axioms;

/// The value with another model.
pub open spec fn with_model(value: JsonView, model: Seq<char>) -> JsonView {
    value.with("model"@, JsonView::Str(model))
}

/// `bytes` can be read as the value with another model, and, if the value is an object, name that
/// model. They can be read for sure if the value holds no number with a fraction or an exponent
/// and does not nest too deep.
pub open spec fn shows_model(value: JsonView, model: Seq<char>, bytes: Seq<u8>) -> bool {
    &&& reads_back(with_model(value, model), bytes)
    &&& exact_within(value, MAX_DEPTH as nat) ==> json_parse(bytes) == Some(
        with_model(value, model),
    )
    &&& value is Object && json_parse(bytes) is Some ==> model_of(bytes) == Some(model)
}

/// The text of a value with another model names that model.
proof fn lemma_shows_model(value: JsonView, model: Seq<char>, bytes: Seq<u8>)
    requires
        reads_back(with_model(value, model), bytes),
        bytes.len() > 0,
    ensures
        shows_model(value, model, bytes),
{
    if exact_within(value, MAX_DEPTH as nat) {
        lemma_exact_with(value, "model"@, JsonView::Str(model), MAX_DEPTH as nat);
    }
    if let Some(read) = json_parse(bytes) {
        lemma_alike_strings(with_model(value, model), read, MAX_DEPTH as nat, "model"@);
    }
}

/// The text of the value with another model.
fn text_with_model(value: Json, model: &str) -> (r: String)
    ensures
        r@ == json_text(with_model(value@, model@)),
        shows_model(value@, model@, encode_utf8(r@)),
{
    let text = value.with("model", Json::string(model)).to_text();
    proof {
        lemma_shows_model(value@, model@, encode_utf8(text@));
    }
    text
}

/// A request body with another model, if it names one.
pub open spec fn rewritten_request(body: Seq<u8>, model: Seq<char>) -> Seq<u8> {
    match json_parse(body) {
        Some(value) if value.get("model"@) is Some => encode_utf8(
            json_text(with_model(value, model)),
        ),
        _ => body,
    }
}

/// Puts another model into a request body. A body that is not JSON, or that has no member
/// `model`, stays as it is.
pub fn rewrite_model_in_body(body: &[u8], new_model: &str) -> (r: Vec<u8>)
    ensures
        r@ == rewritten_request(body@, new_model@),
        match json_parse(body@) {
            Some(value) if value.get("model"@) is Some => shows_model(value, new_model@, r@),
            _ => true,
        },
{
    match Json::parse(body) {
        Some(value) => if value.get("model").is_some() {
            text_with_model(value, new_model).as_str().as_bytes_vec()
        } else {
            slice_to_vec(body)
        },
        None => slice_to_vec(body),
    }
}

/// A response body with another model.
pub open spec fn rewritten_response(body: Seq<u8>, model: Seq<char>) -> Seq<u8> {
    match json_parse(body) {
        Some(value) => encode_utf8(json_text(with_model(value, model))),
        None => body,
    }
}

/// Puts another model into a response body. A body that is not JSON stays as it is.
pub fn rewrite_model_in_json(body: &[u8], new_model: &str) -> (r: Vec<u8>)
    ensures
        r@ == rewritten_response(body@, new_model@),
        match json_parse(body@) {
            Some(value) => shows_model(value, new_model@, r@),
            None => true,
        },
{
    match Json::parse(body) {
        Some(value) => text_with_model(value, new_model).as_str().as_bytes_vec(),
        None => slice_to_vec(body),
    }
}

/// The chunk of a line that may end in white space.
pub open spec fn raw_line_chunk(line: Seq<char>) -> Option<JsonView> {
    line_chunk(trimmed_end(line))
}

/// A line of a stream with another model, if it carries a chunk.
pub open spec fn rewritten_line(line: Seq<char>, model: Seq<char>) -> Seq<char> {
    match raw_line_chunk(line) {
        Some(chunk) => event_text(with_model(chunk, model)),
        None => line,
    }
}

/// Puts another model into a line of a stream. A line that carries no chunk stays as it is.
pub fn rewrite_model_in_sse_line(line: &str, new_model: &str) -> (r: String)
    ensures
        r@ == rewritten_line(line@, new_model@),
        match raw_line_chunk(line@) {
            Some(chunk) => shows_model(
                chunk,
                new_model@,
                encode_utf8(json_text(with_model(chunk, new_model@))),
            ),
            None => true,
        },
{
    let data = match strip_prefix(trim_end(line), "data: ") {
        Some(rest) => trim(rest),
        None => {
            return line.to_owned();
        },
    };
    if str_eq(data, "[DONE]") {
        return line.to_owned();
    }
    match Json::parse(data.as_bytes()) {
        Some(chunk) => {
            let mut out = "data: ".to_owned();
            out.append(text_with_model(chunk, new_model).as_str());
            out.append("\n\n");
            out
        },
        None => line.to_owned(),
    }
}

/// The model that a line of a stream names.
pub open spec fn model_in_line(line: Seq<char>) -> Option<Seq<char>> {
    match line_chunk(line) {
        Some(chunk) => chunk.str_at("model"@),
        None => None,
    }
}

/// The model that a line of a stream names.
pub fn extract_model_from_sse_line(line: &str) -> (r: Option<String>)
    ensures
        opt_text(r) == model_in_line(line@),
{
    let data = match strip_prefix(line, "data: ") {
        Some(rest) => trim(rest),
        None => {
            return None;
        },
    };
    if str_eq(data, "[DONE]") {
        return None;
    }
    match Json::parse(data.as_bytes()) {
        Some(chunk) => named_model(&chunk),
        None => None,
    }
}

/// Only the lines that carry data change: comments, names of events, empty lines and the line
/// that ends a stream stay as they are.
pub proof fn law_other_lines_stay(line: Seq<char>, model: Seq<char>)
    requires
        after_prefix(trimmed_end(line), "data: "@) is None || is_done(trimmed_end(line)),
    ensures
        rewritten_line(line, model) == line,
{
}

/// Nothing but the model changes in a value.
pub proof fn law_only_the_model_changes(value: JsonView, model: Seq<char>, key: Seq<char>)
    ensures
        key != "model"@ ==> with_model(value, model).get(key) == value.get(key),
        value is Object ==> with_model(value, model).str_at("model"@) == Some(model),
        !(value is Object) ==> with_model(value, model) == value,
{
}

/// `changed` is `value` with another model: the member `model` is the string, and every other
/// member is as it was. What is no object stays as it is.
pub open spec fn only_model_changed(value: JsonView, model: Seq<char>, changed: JsonView) -> bool {
    match value {
        JsonView::Object(members) => {
            &&& changed is Object
            &&& changed.get("model"@) == Some(JsonView::Str(model))
            &&& forall|key: Seq<char>|
                key != "model"@ ==> #[trigger] changed.get(key) == value.get(key)
        },
        _ => changed == value,
    }
}

/// A request that names a model is sent with the other model in its place and nothing else changed;
/// a request that names none, or is not JSON, is sent as it is. In a response the model is set
/// wherever it is an object.
pub proof fn law_bodies_are_rewritten(body: Seq<u8>, model: Seq<char>)
    ensures
        match json_parse(body) {
            Some(value) => {
                &&& value.get("model"@) is None ==> rewritten_request(body, model) == body
                &&& value.get("model"@) is Some ==> exists|changed: JsonView|
                    only_model_changed(value, model, changed) && rewritten_request(body, model)
                        == encode_utf8(#[trigger] json_text(changed))
                &&& exists|changed: JsonView|
                    only_model_changed(value, model, changed) && rewritten_response(body, model)
                        == encode_utf8(#[trigger] json_text(changed))
            },
            None => rewritten_request(body, model) == body && rewritten_response(body, model)
                == body,
        },
{
    if let Some(value) = json_parse(body) {
        let changed = with_model(value, model);
        assert(only_model_changed(value, model, changed));
        assert(rewritten_response(body, model) == encode_utf8(json_text(changed)));
    }
}

/// White space that may stand around the data of a line.
pub open spec fn blank(s: Seq<char>) -> bool {
    forall|i: int|
        0 <= i < s.len() ==> (#[trigger] s[i] == ' ' || s[i] == '\t' || s[i] == '\r' || s[i]
            == '\n')
}

/// A text that is not empty and neither starts nor ends with white space.
pub open spec fn tight(s: Seq<char>) -> bool {
    &&& s.len() > 0
    &&& '!' <= s[0] <= '~'
    &&& '!' <= s.last() <= '~'
}

/// A line of a stream with a chunk becomes the event with that chunk, in which nothing but the
/// model is changed. White space around the chunk does not matter. A line that announces the end of
/// the stream stays as it is.
pub proof fn law_lines_are_rewritten(
    before: Seq<char>,
    data: Seq<char>,
    after: Seq<char>,
    model: Seq<char>,
)
    requires
        blank(before),
        tight(data),
        blank(after),
    ensures
        ({
            let line = "data: "@ + before + data + after;
            if data == "[DONE]"@ {
                rewritten_line(line, model) == line
            } else {
                match json_parse(encode_utf8(data)) {
                    Some(value) => {
                        &&& exists|changed: JsonView|
                            only_model_changed(value, model, changed) && rewritten_line(line, model)
                                == "data: "@ + #[trigger] json_text(changed) + "\n\n"@
                        &&& model_in_line("data: "@ + before + data) == match value.get("model"@) {
                            Some(JsonView::Str(named)) => Some(named),
                            _ => None,
                        }
                    },
                    None => rewritten_line(line, model) == line,
                }
            }
        }),
{
    lemma_line_of(before, data, after);
    let line = "data: "@ + before + data + after;
    if let Some(value) = json_parse(encode_utf8(data)) {
        if data != "[DONE]"@ {
            let changed = with_model(value, model);
            assert(only_model_changed(value, model, changed));
            assert(rewritten_line(line, model) == "data: "@ + json_text(changed) + "\n\n"@);
        }
    }
}

/// What a line with data carries.
pub proof fn lemma_line_of(before: Seq<char>, data: Seq<char>, after: Seq<char>)
    requires
        blank(before),
        tight(data),
        blank(after),
    ensures
        ({
            let line = "data: "@ + before + data;
            &&& trimmed_end(line + after) == line
            &&& line_data(line) == Some(data)
            &&& is_done(line) == (data == "[DONE]"@)
            &&& data != "[DONE]"@ ==> line_chunk(line) == json_parse(encode_utf8(data))
            &&& data == "[DONE]"@ ==> line_chunk(line) is None
        }),
{
    reveal_strlit("data: ");
    law_usual_white_space();
    let head = "data: "@;
    let line = head + before + data;
    assert(head.len() == 6);
    assert(line[0] == 'd');
    assert(line.last() == data.last());
    assert forall|i: int| 0 <= i < after.len() implies white_space(#[trigger] after[i]) by {}
    assert forall|i: int| 0 <= i < before.len() implies white_space(#[trigger] before[i]) by {}
    law_trimmed(Seq::empty(), line, after);
    assert(head.is_prefix_of(line)) by {
        assert(line.take(6) =~= head);
    }
    assert(line.skip(6) =~= before + data + Seq::<char>::empty());
    law_trimmed(before, data, Seq::empty());
}

}
