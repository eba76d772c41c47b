//! Responses of the Chat Completions API as responses of the Responses API.

use crate::clock::{seconds_in, unix_seconds};
use crate::ids::{is_id, make_id};
use crate::json::{
    empty_object, json_items, json_parse, json_text, reads_back, Json, JsonView,
};
use crate::text::opt_str;
use vstd::prelude::*;
use vstd::utf8::encode_utf8;

verus! {

broadcast use vstd::string::group_string_axioms;

// ── What a response becomes ────────────────────────────────────────────────

/// A part of the output that is text.
pub open spec fn text_part(text: Seq<char>) -> JsonView {
    JsonView::Object(
        map![
            "type"@ => JsonView::Str("output_text"@),
            "text"@ => JsonView::Str(text),
            "annotations"@ => JsonView::Array(Seq::empty()),
        ],
    )
}

/// The output item for a message of the assistant.
pub open spec fn message_item(
    id: Seq<char>,
    status: Seq<char>,
    content: Seq<JsonView>,
) -> JsonView {
    JsonView::Object(
        map![
            "id"@ => JsonView::Str(id),
            "type"@ => JsonView::Str("message"@),
            "role"@ => JsonView::Str("assistant"@),
            "status"@ => JsonView::Str(status),
            "content"@ => JsonView::Array(content),
        ],
    )
}

/// A response that is completed.
pub open spec fn completed_response(
    id: Seq<char>,
    created_at: u64,
    model: Seq<char>,
    output: Seq<JsonView>,
    usage: JsonView,
) -> JsonView {
    JsonView::Object(
        map![
            "id"@ => JsonView::Str(id),
            "object"@ => JsonView::Str("response"@),
            "created_at"@ => JsonView::Int(created_at as int),
            "status"@ => JsonView::Str("completed"@),
            "model"@ => JsonView::Str(model),
            "output"@ => JsonView::Array(output),
            "usage"@ => usage,
            "parallel_tool_calls"@ => JsonView::Bool(true),
            "previous_response_id"@ => JsonView::Null,
            "reasoning"@ => JsonView::Object(map![
                "effort"@ => JsonView::Str("medium"@),
                "summary"@ => JsonView::Str("auto"@),
            ]),
            "text"@ => JsonView::Object(map![
                "format"@ => JsonView::Object(map!["type"@ => JsonView::Str("text"@)]),
            ]),
            "tools"@ => JsonView::Array(Seq::empty()),
            "truncation"@ => JsonView::Str("disabled"@),
        ],
    )
}

/// Numbers of tokens.
pub open spec fn token_usage(input: JsonView, output: JsonView, total: JsonView) -> JsonView {
    JsonView::Object(
        map!["input_tokens"@ => input, "output_tokens"@ => output, "total_tokens"@ => total],
    )
}

/// The message of the first choice, or an empty object.
pub open spec fn first_message(chat: JsonView) -> JsonView {
    match chat.array_at("choices"@) {
        Some(choices) if choices.len() > 0 => choices[0].get_or("message"@, empty_object()),
        _ => empty_object(),
    }
}

/// The part of the output that a tool call becomes.
pub open spec fn call_part(call: JsonView) -> JsonView {
    let f = call.get_or("function"@, empty_object());
    JsonView::Object(
        map![
            "type"@ => JsonView::Str("function_call"@),
            "id"@ => JsonView::Str(call.text_at("id"@)),
            "call_id"@ => JsonView::Str(call.text_at("id"@)),
            "name"@ => f.get_or("name"@, JsonView::Str(Seq::empty())),
            "arguments"@ => f.get_or("arguments"@, JsonView::Str("{}"@)),
        ],
    )
}

/// The parts of the output that a message becomes: its text, then its tool calls.
pub open spec fn message_parts(message: JsonView) -> Seq<JsonView> {
    let text = seq![text_part(message.text_at("content"@))];
    match message.array_at("tool_calls"@) {
        Some(calls) => text + calls.map_values(|c: JsonView| call_part(c)),
        None => text,
    }
}

/// The usage that a Chat Completions response reports.
pub open spec fn reported_usage(chat: JsonView) -> JsonView {
    let usage = chat.get_or("usage"@, empty_object());
    token_usage(
        usage.get_or("prompt_tokens"@, JsonView::Int(0)),
        usage.get_or("completion_tokens"@, JsonView::Int(0)),
        usage.get_or("total_tokens"@, JsonView::Int(0)),
    )
}

/// The Responses API response that a Chat Completions response becomes. `model` takes the
/// place of the model that the upstream names.
pub open spec fn response_object(
    chat: JsonView,
    model: Option<Seq<char>>,
    msg_id: Seq<char>,
    resp_id: Seq<char>,
    created_at: u64,
) -> JsonView {
    let shown = match model {
        Some(m) => m,
        None => chat.text_at("model"@),
    };
    completed_response(
        resp_id,
        created_at,
        shown,
        seq![message_item(msg_id, "completed"@, message_parts(first_message(chat)))],
        reported_usage(chat),
    )
}

/// The bytes are the response to `chat` with identifiers of their own and a time stamp in whole
/// seconds. It can be read back.
pub open spec fn is_response(chat: JsonView, model: Option<Seq<char>>, bytes: Seq<u8>) -> bool {
    exists|msg_id: Seq<char>, resp_id: Seq<char>, millis: u64|
        {
            let response = #[trigger] response_object(
                chat,
                model,
                msg_id,
                resp_id,
                seconds_in(millis),
            );
            &&& is_id("msg"@, msg_id)
            &&& is_id("resp"@, resp_id)
            &&& bytes == encode_utf8(json_text(response))
            &&& reads_back(response, bytes)
        }
}

// ── The conversion ─────────────────────────────────────────────────────────

/// Converts a Chat Completions response to the Responses API format. Bytes that are not JSON
/// give nothing.
pub fn chat_response_to_responses(body: &[u8]) -> (r: Option<Vec<u8>>)
    ensures
        match r {
            Some(bytes) => {
                &&& json_parse(body@) is Some
                &&& is_response(json_parse(body@)->0, None, bytes@)
                &&& tells_the_same(json_parse(body@)->0, None, bytes@)
            },
            None => json_parse(body@) is None,
        },
{
    chat_response_to_responses_as(body, None)
}

/// Converts a Chat Completions response to the Responses API format, showing `model`, if
/// given, in place of the model that the upstream names.
pub fn chat_response_to_responses_as(body: &[u8], model: Option<&str>) -> (r: Option<Vec<u8>>)
    ensures
        match r {
            Some(bytes) => {
                &&& json_parse(body@) is Some
                &&& is_response(json_parse(body@)->0, opt_str(model), bytes@)
                &&& tells_the_same(json_parse(body@)->0, opt_str(model), bytes@)
            },
            None => json_parse(body@) is None,
        },
{
    proof {
        if let Some(chat) = json_parse(body@) {
            assert forall|bytes: Seq<u8>| is_response(chat, opt_str(model), bytes) implies
                #[trigger] tells_the_same(chat, opt_str(model), bytes) by {
                law_response_bytes(chat, opt_str(model), bytes);
            }
        }
    }
    match Json::parse(body) {
        Some(chat) => {
            let msg_id = make_id("msg");
            let resp_id = make_id("resp");
            let created_at: u64 = unix_seconds();
            let response = build_response(
                &chat,
                model,
                msg_id.as_str(),
                resp_id.as_str(),
                created_at,
            );
            Some(response.to_bytes())
        },
        None => None,
    }
}

/// The Responses API response that a Chat Completions response becomes.
pub fn build_response(
    chat: &Json,
    model: Option<&str>,
    msg_id: &str,
    resp_id: &str,
    created_at: u64,
) -> (r: Json)
    ensures
        r@ == response_object(chat@, opt_str(model), msg_id@, resp_id@, created_at),
        conveys(r@, said_first(chat@), msg_id@),
        frames(r@, chat@, opt_str(model), resp_id@, created_at),
{
    proof {
        law_response_says_what_the_upstream_said(
            chat@,
            opt_str(model),
            msg_id@,
            resp_id@,
            created_at,
        );
        law_response_frame(chat@, opt_str(model), msg_id@, resp_id@, created_at);
    }
    let shown = match model {
        Some(m) => m,
        None => chat.text_at("model"),
    };
    let none = Json::object();
    let message = match chat.array_at("choices") {
        Some(choices) => if choices.len() > 0 {
            match choices[0].get("message") {
                Some(m) => m,
                None => &none,
            }
        } else {
            &none
        },
        None => &none,
    };
    let item = assistant_item(msg_id, "completed", convert_message_parts(message));
    let usage = chat.get_or("usage", Json::object());
    let tokens = usage_object(
        usage.get_or("prompt_tokens", Json::number(0)),
        usage.get_or("completion_tokens", Json::number(0)),
        usage.get_or("total_tokens", Json::number(0)),
    );
    let output: Vec<Json> = vec![item];
    assert(json_items(output@) =~= seq![item@]);
    finished_response(resp_id, created_at, shown, output, tokens)
}

/// The parts of the output that a message becomes.
fn convert_message_parts(message: &Json) -> (r: Vec<Json>)
    ensures
        json_items(r@) == message_parts(message@),
{
    let text = output_text(message.text_at("content"));
    let mut parts: Vec<Json> = vec![text];
    assert(json_items(parts@) =~= seq![text@]);
    if let Some(calls) = message.array_at("tool_calls") {
        let ghost all = json_items(calls@).map_values(|c: JsonView| call_part(c));
        let mut i: usize = 0;
        assert(seq![text@] + all.take(0) =~= seq![text@]);
        while i < calls.len()
            invariant
                all == json_items(calls@).map_values(|c: JsonView| call_part(c)),
                i <= calls@.len(),
                json_items(parts@) == seq![text@] + all.take(i as int),
            decreases calls@.len() - i,
        {
            let ghost before = parts@;
            let part = convert_call_part(&calls[i]);
            parts.push(part);
            assert(json_items(parts@) =~= json_items(before).push(part@));
            assert(seq![text@] + all.take(i + 1) =~= (seq![text@] + all.take(i as int)).push(
                all[i as int],
            ));
            i += 1;
        }
        assert(all.take(calls@.len() as int) =~= all);
    }
    parts
}

/// The part of the output that a tool call becomes.
fn convert_call_part(call: &Json) -> (r: Json)
    ensures
        r@ == call_part(call@),
{
    let none = Json::object();
    let f = match call.get("function") {
        Some(f) => f,
        None => &none,
    };
    let id = call.text_at("id");
    Json::object().with("type", Json::string("function_call")).with("id", Json::string(id)).with(
        "call_id",
        Json::string(id),
    ).with("name", f.get_or("name", Json::empty_string())).with(
        "arguments",
        f.get_or("arguments", Json::string("{}")),
    )
}

/// A part of the output that is text.
pub(crate) fn output_text(text: &str) -> (r: Json)
    ensures
        r@ == text_part(text@),
{
    Json::object().with("type", Json::string("output_text")).with("text", Json::string(text)).with(
        "annotations",
        Json::array(),
    )
}

/// The output item for a message of the assistant.
pub(crate) fn assistant_item(id: &str, status: &str, content: Vec<Json>) -> (r: Json)
    ensures
        r@ == message_item(id@, status@, json_items(content@)),
{
    Json::object().with("id", Json::string(id)).with("type", Json::string("message")).with(
        "role",
        Json::string("assistant"),
    ).with("status", Json::string(status)).with("content", Json::Array(content))
}

/// Numbers of tokens.
pub(crate) fn usage_object(input: Json, output: Json, total: Json) -> (r: Json)
    ensures
        r@ == token_usage(input@, output@, total@),
{
    Json::object().with("input_tokens", input).with("output_tokens", output).with(
        "total_tokens",
        total,
    )
}

/// A response that is completed.
pub(crate) fn finished_response(
    id: &str,
    created_at: u64,
    model: &str,
    output: Vec<Json>,
    usage: Json,
) -> (r: Json)
    ensures
        r@ == completed_response(id@, created_at, model@, json_items(output@), usage@),
{
    let reasoning = Json::object().with("effort", Json::string("medium")).with(
        "summary",
        Json::string("auto"),
    );
    let format = Json::object().with(
        "format",
        Json::object().with("type", Json::string("text")),
    );
    Json::object().with("id", Json::string(id)).with("object", Json::string("response")).with(
        "created_at",
        Json::number(created_at),
    ).with("status", Json::string("completed")).with("model", Json::string(model)).with(
        "output",
        Json::Array(output),
    ).with("usage", usage).with("parallel_tool_calls", Json::Bool(true)).with(
        "previous_response_id",
        Json::Null,
    ).with("reasoning", reasoning).with("text", format).with("tools", Json::array()).with(
        "truncation",
        Json::string("disabled"),
    )
}

// ── What holds of every response ───────────────────────────────────────────

/// A completed response has the members that every one has.
proof fn lemma_usual_members(
    id: Seq<char>,
    created_at: u64,
    model: Seq<char>,
    output: Seq<JsonView>,
    usage: JsonView,
)
    ensures
        usual_members(completed_response(id, created_at, model, output, usage)),
{
    reveal_strlit("id");
    reveal_strlit("object");
    reveal_strlit("created_at");
    reveal_strlit("status");
    reveal_strlit("model");
    reveal_strlit("output");
    reveal_strlit("usage");
    reveal_strlit("parallel_tool_calls");
    reveal_strlit("previous_response_id");
    reveal_strlit("reasoning");
    reveal_strlit("text");
    reveal_strlit("tools");
    reveal_strlit("truncation");
    reveal_strlit("effort");
    reveal_strlit("summary");
    assert("id"@.len() == 2);
    assert("object"@.len() == 6);
    assert("created_at"@.len() == 10);
    assert("status"@.len() == 6);
    assert("model"@.len() == 5);
    assert("output"@.len() == 6);
    assert("usage"@.len() == 5);
    assert("parallel_tool_calls"@.len() == 19);
    assert("previous_response_id"@.len() == 20);
    assert("reasoning"@.len() == 9);
    assert("text"@.len() == 4);
    assert("tools"@.len() == 5);
    assert("truncation"@.len() == 10);
    assert("effort"@.len() == 6);
    assert("summary"@.len() == 7);
    assert("created_at"@[0] == 'c');
    assert("effort"@[0] == 'e');
    assert("model"@[0] == 'm');
    assert("object"@[0] == 'o');
    assert("object"@[1] == 'b');
    assert("output"@[0] == 'o');
    assert("output"@[1] == 'u');
    assert("status"@[0] == 's');
    assert("tools"@[0] == 't');
    assert("truncation"@[0] == 't');
    assert("usage"@[0] == 'u');
}

/// A completed response names its model, its identifier and its status as given.
pub proof fn lemma_completed_response(
    id: Seq<char>,
    created_at: u64,
    model: Seq<char>,
    output: Seq<JsonView>,
    usage: JsonView,
)
    ensures
        ({
            let r = completed_response(id, created_at, model, output, usage);
            &&& r.str_at("id"@) == Some(id)
            &&& r.str_at("object"@) == Some("response"@)
            &&& r.str_at("status"@) == Some("completed"@)
            &&& r.str_at("model"@) == Some(model)
            &&& r.array_at("output"@) == Some(output)
            &&& r.get("usage"@) == Some(usage)
            &&& r.get("created_at"@) == Some(JsonView::Int(created_at as int))
            &&& usual_members(r)
        }),
{
    assert(usual_members(completed_response(id, created_at, model, output, usage))) by {
        lemma_usual_members(id, created_at, model, output, usage);
    }
    assert("created_at"@[0] == 'c') by {
        reveal_strlit("created_at");
    }
    assert("truncation"@[0] == 't') by {
        reveal_strlit("truncation");
    }
    reveal_strlit("id");
    reveal_strlit("object");
    reveal_strlit("created_at");
    reveal_strlit("status");
    reveal_strlit("model");
    reveal_strlit("output");
    reveal_strlit("usage");
    reveal_strlit("parallel_tool_calls");
    reveal_strlit("previous_response_id");
    reveal_strlit("reasoning");
    reveal_strlit("text");
    reveal_strlit("tools");
    reveal_strlit("truncation");
    assert("id"@.len() == 2);
    assert("object"@.len() == 6);
    assert("created_at"@.len() == 10);
    assert("status"@.len() == 6);
    assert("model"@.len() == 5);
    assert("output"@.len() == 6);
    assert("usage"@.len() == 5);
    assert("parallel_tool_calls"@.len() == 19);
    assert("previous_response_id"@.len() == 20);
    assert("reasoning"@.len() == 9);
    assert("text"@.len() == 4);
    assert("tools"@.len() == 5);
    assert("truncation"@.len() == 10);
    assert("object"@[1] == 'b');
    assert("status"@[1] == 't');
    assert("output"@[1] == 'u');
    assert("model"@[0] == 'm');
    assert("usage"@[0] == 'u');
    assert("tools"@[0] == 't');
}

/// The response shows the model that is given, or the one that the upstream names; its text is
/// that of the first choice.
pub proof fn law_response_shows_model_and_text(
    chat: JsonView,
    model: Option<Seq<char>>,
    msg_id: Seq<char>,
    resp_id: Seq<char>,
    created_at: u64,
)
    ensures
        ({
            let r = response_object(chat, model, msg_id, resp_id, created_at);
            let item = message_item(msg_id, "completed"@, message_parts(first_message(chat)));
            &&& r.str_at("model"@) == Some(
                match model {
                    Some(m) => m,
                    None => chat.text_at("model"@),
                },
            )
            &&& r.str_at("object"@) == Some("response"@)
            &&& r.str_at("status"@) == Some("completed"@)
            &&& r.str_at("id"@) == Some(resp_id)
            &&& r.array_at("output"@) == Some(seq![item])
            &&& r.get("usage"@) == Some(reported_usage(chat))
            &&& message_parts(first_message(chat))[0] == text_part(
                first_message(chat).text_at("content"@),
            )
        }),
{
    lemma_completed_response(
        resp_id,
        created_at,
        match model {
            Some(m) => m,
            None => chat.text_at("model"@),
        },
        seq![message_item(msg_id, "completed"@, message_parts(first_message(chat)))],
        reported_usage(chat),
    );
}

/// The members of the parts of an output are told apart.
proof fn lemma_part_members()
    ensures
        forall|text: Seq<char>|
            {
                let part = #[trigger] text_part(text);
                &&& part.str_at("type"@) == Some("output_text"@)
                &&& part.str_at("text"@) == Some(text)
                &&& part.array_at("annotations"@) == Some(Seq::<JsonView>::empty())
            },
        forall|call: JsonView|
            {
                let part = #[trigger] call_part(call);
                &&& part.str_at("type"@) == Some("function_call"@)
                &&& part.str_at("id"@) == Some(call.text_at("id"@))
                &&& part.str_at("call_id"@) == Some(call.text_at("id"@))
                &&& part.get("name"@) == Some(
                    call.get_or("function"@, empty_object()).get_or(
                        "name"@,
                        JsonView::Str(Seq::empty()),
                    ),
                )
                &&& part.get("arguments"@) == Some(
                    call.get_or("function"@, empty_object()).get_or(
                        "arguments"@,
                        JsonView::Str("{}"@),
                    ),
                )
            },
        forall|id: Seq<char>, status: Seq<char>, content: Seq<JsonView>|
            {
                let item = #[trigger] message_item(id, status, content);
                &&& item.str_at("id"@) == Some(id)
                &&& item.str_at("type"@) == Some("message"@)
                &&& item.str_at("role"@) == Some("assistant"@)
                &&& item.str_at("status"@) == Some(status)
                &&& item.array_at("content"@) == Some(content)
            },
        forall|input: JsonView, output: JsonView, total: JsonView|
            {
                let usage = #[trigger] token_usage(input, output, total);
                &&& usage.get("input_tokens"@) == Some(input)
                &&& usage.get("output_tokens"@) == Some(output)
                &&& usage.get("total_tokens"@) == Some(total)
            },
{
    reveal_strlit("type");
    reveal_strlit("id");
    reveal_strlit("call_id");
    reveal_strlit("name");
    reveal_strlit("arguments");
    reveal_strlit("text");
    reveal_strlit("annotations");
    reveal_strlit("role");
    reveal_strlit("status");
    reveal_strlit("content");
    reveal_strlit("input_tokens");
    reveal_strlit("output_tokens");
    reveal_strlit("total_tokens");
    assert("type"@.len() == 4);
    assert("id"@.len() == 2);
    assert("call_id"@.len() == 7);
    assert("name"@.len() == 4);
    assert("arguments"@.len() == 9);
    assert("text"@.len() == 4);
    assert("annotations"@.len() == 11);
    assert("role"@.len() == 4);
    assert("status"@.len() == 6);
    assert("content"@.len() == 7);
    assert("input_tokens"@.len() == 12);
    assert("output_tokens"@.len() == 13);
    assert("total_tokens"@.len() == 12);
    assert("call_id"@[1] == 'a');
    assert("content"@[1] == 'o');
    assert("input_tokens"@[0] == 'i');
    assert("name"@[0] == 'n');
    assert("role"@[0] == 'r');
    assert("text"@[0] == 't');
    assert("text"@[1] == 'e');
    assert("total_tokens"@[0] == 't');
    assert("type"@[0] == 't');
    assert("type"@[1] == 'y');
}

/// The member `outer` of a value, and in it the member `inner`, or `default` where one of them is
/// missing.
pub open spec fn within(
    v: JsonView,
    outer: Seq<char>,
    inner: Seq<char>,
    default: JsonView,
) -> JsonView {
    match v.get(outer) {
        Some(o) => match o.get(inner) {
            Some(i) => i,
            None => default,
        },
        None => default,
    }
}

/// A part of an output is the text `text`.
pub open spec fn is_text(part: JsonView, text: Seq<char>) -> bool {
    &&& part.get("type"@) == Some(JsonView::Str("output_text"@))
    &&& part.get("text"@) == Some(JsonView::Str(text))
    &&& part.get("annotations"@) == Some(JsonView::Array(Seq::empty()))
}

/// The message of the first choice of a Chat Completions response, or an object without members.
pub open spec fn said_first(chat: JsonView) -> JsonView {
    match chat.get("choices"@) {
        Some(JsonView::Array(choices)) if choices.len() > 0 => match choices[0].get("message"@) {
            Some(message) => message,
            None => JsonView::Object(Map::empty()),
        },
        _ => JsonView::Object(Map::empty()),
    }
}

/// A part of an output is a tool call: it has the name and the arguments of its function, under the
/// identifier of the call.
pub open spec fn conveys_call(part: JsonView, call: JsonView) -> bool {
    let id = match call.get("id"@) {
        Some(JsonView::Str(text)) => text,
        _ => Seq::empty(),
    };
    &&& part.get("type"@) == Some(JsonView::Str("function_call"@))
    &&& part.get("id"@) == Some(JsonView::Str(id))
    &&& part.get("call_id"@) == Some(JsonView::Str(id))
    &&& part.get("name"@) == Some(
        within(call, "function"@, "name"@, JsonView::Str(Seq::empty())),
    )
    &&& part.get("arguments"@) == Some(
        within(call, "function"@, "arguments"@, JsonView::Str("{}"@)),
    )
}

/// A response says what was said: its output is one message of the assistant, whose first part is
/// the text, and whose other parts are the tool calls, in their order.
pub open spec fn conveys(r: JsonView, said: JsonView, msg_id: Seq<char>) -> bool {
    let calls = match said.get("tool_calls"@) {
        Some(JsonView::Array(calls)) => calls,
        _ => Seq::empty(),
    };
    &&& r.array_at("output"@) is Some
    &&& r.array_at("output"@)->0.len() == 1
    &&& {
        let item = r.array_at("output"@)->0[0];
        &&& item.get("type"@) == Some(JsonView::Str("message"@))
        &&& item.get("role"@) == Some(JsonView::Str("assistant"@))
        &&& item.get("status"@) == Some(JsonView::Str("completed"@))
        &&& item.get("id"@) == Some(JsonView::Str(msg_id))
        &&& item.array_at("content"@) is Some
        &&& {
            let parts = item.array_at("content"@)->0;
            &&& parts.len() == 1 + calls.len()
            &&& is_text(
                parts[0],
                match said.get("content"@) {
                    Some(JsonView::Str(text)) => text,
                    _ => Seq::empty(),
                },
            )
            &&& forall|k: int|
                0 <= k < calls.len() ==> conveys_call(parts[k + 1], #[trigger] calls[k])
        }
    }
}

/// The frame of a response: it is completed, with this identifier and this time, for the model that
/// is given or else for the one that the upstream names; the tokens that the upstream counted for
/// the prompt are its input, those for the completion its output, and the total is the total.
pub open spec fn frames(
    r: JsonView,
    chat: JsonView,
    model: Option<Seq<char>>,
    resp_id: Seq<char>,
    created_at: u64,
) -> bool {
    &&& r.get("id"@) == Some(JsonView::Str(resp_id))
    &&& r.get("object"@) == Some(JsonView::Str("response"@))
    &&& r.get("status"@) == Some(JsonView::Str("completed"@))
    &&& r.get("created_at"@) == Some(JsonView::Int(created_at as int))
    &&& r.get("model"@) == Some(
        match (model, chat.get("model"@)) {
            (Some(given), _) => JsonView::Str(given),
            (None, Some(JsonView::Str(named))) => JsonView::Str(named),
            _ => JsonView::Str(Seq::empty()),
        },
    )
    &&& r.get("usage"@) is Some
    &&& {
        let usage = r.get("usage"@)->0;
        &&& usage.get("input_tokens"@) == Some(
            within(chat, "usage"@, "prompt_tokens"@, JsonView::Int(0)),
        )
        &&& usage.get("output_tokens"@) == Some(
            within(chat, "usage"@, "completion_tokens"@, JsonView::Int(0)),
        )
        &&& usage.get("total_tokens"@) == Some(
            within(chat, "usage"@, "total_tokens"@, JsonView::Int(0)),
        )
    }
}

/// What every completed response says of itself.
pub open spec fn usual_members(r: JsonView) -> bool {
    let reasoning = match r.get("reasoning"@) {
        Some(v) => v,
        None => JsonView::Null,
    };
    let format = within(r, "text"@, "format"@, JsonView::Null);
    &&& r.get("parallel_tool_calls"@) == Some(JsonView::Bool(true))
    &&& r.get("previous_response_id"@) == Some(JsonView::Null)
    &&& reasoning.get("effort"@) == Some(JsonView::Str("medium"@))
    &&& reasoning.get("summary"@) == Some(JsonView::Str("auto"@))
    &&& format.get("type"@) == Some(JsonView::Str("text"@))
    &&& r.get("tools"@) == Some(JsonView::Array(Seq::empty()))
    &&& r.get("truncation"@) == Some(JsonView::Str("disabled"@))
}

/// What a whole response says is what the upstream said in the message of its first choice: one
/// message with the text, or an empty text if there is none, and behind it, each at the place of its
/// tool call, the name and the arguments of the function, under the identifier of the call.
pub proof fn law_response_says_what_the_upstream_said(
    chat: JsonView,
    model: Option<Seq<char>>,
    msg_id: Seq<char>,
    resp_id: Seq<char>,
    created_at: u64,
)
    ensures
        conveys(
            response_object(chat, model, msg_id, resp_id, created_at),
            said_first(chat),
            msg_id,
        ),
{
    lemma_part_members();
    let said = said_first(chat);
    let shown = match model {
        Some(m) => m,
        None => chat.text_at("model"@),
    };
    let item = message_item(msg_id, "completed"@, message_parts(first_message(chat)));
    lemma_completed_response(resp_id, created_at, shown, seq![item], reported_usage(chat));
    assert(first_message(chat) == said);
    let parts = message_parts(said);
    assert(parts[0] == text_part(said.text_at("content"@)));
    if let Some(calls) = said.array_at("tool_calls"@) {
        assert forall|k: int| 0 <= k < calls.len() implies conveys_call(
            parts[k + 1],
            #[trigger] calls[k],
        ) by {
            assert(parts[k + 1] == call_part(calls[k]));
        }
    }
}

/// A whole response has the frame that belongs to it.
pub proof fn law_response_frame(
    chat: JsonView,
    model: Option<Seq<char>>,
    msg_id: Seq<char>,
    resp_id: Seq<char>,
    created_at: u64,
)
    ensures
        frames(
            response_object(chat, model, msg_id, resp_id, created_at),
            chat,
            model,
            resp_id,
            created_at,
        ),
        usual_members(response_object(chat, model, msg_id, resp_id, created_at)),
{
    lemma_part_members();
    let shown = match model {
        Some(m) => m,
        None => chat.text_at("model"@),
    };
    let item = message_item(msg_id, "completed"@, message_parts(first_message(chat)));
    lemma_completed_response(resp_id, created_at, shown, seq![item], reported_usage(chat));
}

/// Bytes are the text of a response that says what the upstream said, in its frame, with identifiers
/// of its own and a time in whole seconds.
pub open spec fn tells_the_same(
    chat: JsonView,
    model: Option<Seq<char>>,
    bytes: Seq<u8>,
) -> bool {
    exists|r: JsonView, msg_id: Seq<char>, resp_id: Seq<char>, millis: u64|
        {
            &&& conveys(r, said_first(chat), msg_id)
            &&& #[trigger] is_framed(r, chat, model, msg_id, resp_id, millis)
            &&& bytes == encode_utf8(json_text(r))
        }
}

/// A response with identifiers of its own has its frame.
pub open spec fn is_framed(
    r: JsonView,
    chat: JsonView,
    model: Option<Seq<char>>,
    msg_id: Seq<char>,
    resp_id: Seq<char>,
    millis: u64,
) -> bool {
    &&& frames(r, chat, model, resp_id, seconds_in(millis))
    &&& usual_members(r)
    &&& is_id("msg"@, msg_id)
    &&& is_id("resp"@, resp_id)
}

/// Bytes that are the response to a Chat Completions response tell the same as that.
pub proof fn law_response_bytes(chat: JsonView, model: Option<Seq<char>>, bytes: Seq<u8>)
    requires
        is_response(chat, model, bytes),
    ensures
        tells_the_same(chat, model, bytes),
{
    let (msg_id, resp_id, millis) = choose|msg_id: Seq<char>, resp_id: Seq<char>, millis: u64|
        {
            let response = #[trigger] response_object(
                chat,
                model,
                msg_id,
                resp_id,
                seconds_in(millis),
            );
            &&& is_id("msg"@, msg_id)
            &&& is_id("resp"@, resp_id)
            &&& bytes == encode_utf8(json_text(response))
            &&& reads_back(response, bytes)
        };
    let r = response_object(chat, model, msg_id, resp_id, seconds_in(millis));
    law_response_frame(chat, model, msg_id, resp_id, seconds_in(millis));
    law_response_says_what_the_upstream_said(chat, model, msg_id, resp_id, seconds_in(millis));
    assert(is_framed(r, chat, model, msg_id, resp_id, millis));
}

}
