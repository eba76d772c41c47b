//! Requests of the Responses API as requests of the Chat Completions API.

use crate::json::{
    empty_object, json_items, json_parse, json_text, reads_back, Json, JsonView,
};
use crate::text::{join, joined, str_eq, texts};
use vstd::prelude::*;
use vstd::utf8::encode_utf8;

verus! {

broadcast use vstd::string::group_string_axioms;

/// The name of the transform in the configuration.
pub const RESPONSES_TO_CHAT: &'static str = "responses_to_chat";

// ── What a request becomes ─────────────────────────────────────────────────

/// A value that is there and not `null`.
pub open spec fn non_null(v: Option<JsonView>) -> Option<JsonView> {
    match v {
        Some(JsonView::Null) => None,
        _ => v,
    }
}

/// The member `inner` of the member `outer`.
pub open spec fn nested(v: JsonView, outer: Seq<char>, inner: Seq<char>) -> Option<JsonView> {
    match v.get(outer) {
        Some(o) => o.get(inner),
        None => None,
    }
}

/// A message with a role and a text.
pub open spec fn message(role: Seq<char>, content: Seq<char>) -> JsonView {
    JsonView::Object(
        map!["role"@ => JsonView::Str(role), "content"@ => JsonView::Str(content)],
    )
}

/// The message that carries the tool calls of the assistant.
pub open spec fn calls_message(calls: Seq<JsonView>) -> JsonView {
    JsonView::Object(
        map![
            "role"@ => JsonView::Str("assistant"@),
            "content"@ => JsonView::Null,
            "tool_calls"@ => JsonView::Array(calls),
        ],
    )
}

/// The identifier of a function call: `call_id`, or else `id`.
pub open spec fn call_id(item: JsonView) -> Seq<char> {
    if item.get("call_id"@) is Some {
        item.text_at("call_id"@)
    } else {
        item.text_at("id"@)
    }
}

/// The tool call that a `function_call` item becomes.
pub open spec fn tool_call(item: JsonView) -> JsonView {
    JsonView::Object(
        map![
            "id"@ => JsonView::Str(call_id(item)),
            "type"@ => JsonView::Str("function"@),
            "function"@ => JsonView::Object(map![
                "name"@ => item.get_or("name"@, JsonView::Str(Seq::empty())),
                "arguments"@ => item.get_or("arguments"@, JsonView::Str("{}"@)),
            ]),
        ],
    )
}

/// The message that a `function_call_output` item becomes.
pub open spec fn tool_message(item: JsonView) -> JsonView {
    JsonView::Object(
        map![
            "role"@ => JsonView::Str("tool"@),
            "tool_call_id"@ => item.get_or("call_id"@, JsonView::Str(Seq::empty())),
            "content"@ => item.get_or("output"@, JsonView::Str(Seq::empty())),
        ],
    )
}

/// The text of one part of a message's content, if it has one.
pub open spec fn part_text(part: JsonView) -> Option<Seq<char>> {
    if part.str_at("type"@) == Some("input_image"@) {
        Some("[image]"@)
    } else {
        part.str_at("text"@)
    }
}

/// The texts of the parts that have one, in order.
pub open spec fn part_texts(parts: Seq<JsonView>) -> Seq<Seq<char>>
    decreases parts.len(),
{
    if parts.len() == 0 {
        Seq::empty()
    } else {
        match part_text(parts.last()) {
            Some(t) => part_texts(parts.drop_last()).push(t),
            None => part_texts(parts.drop_last()),
        }
    }
}

/// The text of a message item: the texts of its parts on lines of their own, or the string
/// itself.
pub open spec fn content_text(content: Option<JsonView>) -> Seq<char> {
    match content {
        Some(JsonView::Array(parts)) => joined(part_texts(parts), "\n"@),
        Some(JsonView::Str(s)) => s,
        _ => Seq::empty(),
    }
}

/// The role of a message item: `user` unless it says otherwise; developers speak as `system`.
pub open spec fn message_role(item: JsonView) -> Seq<char> {
    match item.str_at("role"@) {
        Some(role) => if role == "developer"@ {
            "system"@
        } else {
            role
        },
        None => "user"@,
    }
}

/// Messages so far, and tool calls that no message carries yet.
pub struct Conversation {
    pub messages: Seq<JsonView>,
    pub pending: Seq<JsonView>,
}

/// The messages, with one more for the pending tool calls if there are any.
pub open spec fn flushed(c: Conversation) -> Seq<JsonView> {
    if c.pending.len() == 0 {
        c.messages
    } else {
        c.messages.push(calls_message(c.pending))
    }
}

/// The conversation in which `message` comes behind the pending tool calls.
pub open spec fn said(c: Conversation, message: JsonView) -> Conversation {
    Conversation { messages: flushed(c).push(message), pending: Seq::empty() }
}

/// The conversation after one more item of the input.
pub open spec fn after_item(c: Conversation, item: JsonView) -> Conversation {
    match item {
        JsonView::Str(s) => said(c, message("user"@, s)),
        JsonView::Object(_) => if item.str_at("type"@) == Some("function_call"@) {
            Conversation { pending: c.pending.push(tool_call(item)), ..c }
        } else if item.str_at("type"@) == Some("function_call_output"@) {
            said(c, tool_message(item))
        } else {
            said(c, message(message_role(item), content_text(item.get("content"@))))
        },
        _ => c,
    }
}

/// The conversation after the items of the input, behind `first`.
pub open spec fn conversation(first: Seq<JsonView>, items: Seq<JsonView>) -> Conversation
    decreases items.len(),
{
    if items.len() == 0 {
        Conversation { messages: first, pending: Seq::empty() }
    } else {
        after_item(conversation(first, items.drop_last()), items.last())
    }
}

/// The system message that the instructions of a request become.
pub open spec fn system_messages(body: JsonView) -> Seq<JsonView> {
    match body.str_at("instructions"@) {
        Some(s) => seq![message("system"@, s)],
        None => Seq::empty(),
    }
}

/// The messages that the instructions and the input of a request become.
pub open spec fn chat_messages(body: JsonView) -> Seq<JsonView> {
    match body.get("input"@) {
        Some(JsonView::Str(s)) => system_messages(body).push(message("user"@, s)),
        Some(JsonView::Array(items)) => flushed(conversation(system_messages(body), items)),
        _ => system_messages(body),
    }
}

/// Whether a tool is a function.
pub open spec fn is_function(tool: JsonView) -> bool {
    tool.str_at("type"@) == Some("function"@)
}

/// The nested form of a tool that is given flat or nested.
pub open spec fn chat_tool(tool: JsonView) -> JsonView {
    let f = tool.get_or("function"@, tool);
    JsonView::Object(
        map![
            "type"@ => JsonView::Str("function"@),
            "function"@ => JsonView::Object(map![
                "name"@ => f.get_or("name"@, JsonView::Str(Seq::empty())),
                "description"@ => f.get_or("description"@, JsonView::Str(Seq::empty())),
                "parameters"@ => f.get_or("parameters"@, empty_object()),
            ]),
        ],
    )
}

/// The functions among the tools, in order, in nested form.
pub open spec fn chat_tools(tools: Seq<JsonView>) -> Seq<JsonView>
    decreases tools.len(),
{
    if tools.len() == 0 {
        Seq::empty()
    } else if is_function(tools.last()) {
        chat_tools(tools.drop_last()).push(chat_tool(tools.last()))
    } else {
        chat_tools(tools.drop_last())
    }
}

/// The tools of a request, if a function is among them.
pub open spec fn request_tools(body: JsonView) -> Option<JsonView> {
    match body.array_at("tools"@) {
        Some(tools) if chat_tools(tools).len() > 0 => Some(
            JsonView::Array(chat_tools(tools)),
        ),
        _ => None,
    }
}

/// The Chat Completions request that a Responses request becomes.
pub open spec fn chat_request(body: JsonView) -> JsonView {
    JsonView::Object(
        map![
            "model"@ => JsonView::Str(body.text_at("model"@)),
            "messages"@ => JsonView::Array(chat_messages(body)),
            "stream"@ => body.get_or("stream"@, JsonView::Bool(false)),
        ],
    ).with_some("temperature"@, non_null(body.get("temperature"@))).with_some(
        "max_tokens"@,
        body.get("max_output_tokens"@),
    ).with_some("top_p"@, body.get("top_p"@)).with_some(
        "reasoning_effort"@,
        nested(body, "reasoning"@, "effort"@),
    ).with_some("tools"@, request_tools(body))
}

// ── The conversion ─────────────────────────────────────────────────────────

/// Converts a Responses API request body to a Chat Completions request body. Bytes that are
/// not JSON give nothing.
pub fn responses_to_chat_request(body: &[u8]) -> (r: Option<Vec<u8>>)
    ensures
        match r {
            Some(bytes) => {
                &&& json_parse(body@) is Some
                &&& bytes@ == encode_utf8(json_text(chat_request(json_parse(body@)->0)))
                &&& bytes@.len() > 0
                &&& reads_back(chat_request(json_parse(body@)->0), bytes@)
            },
            None => json_parse(body@) is None,
        },
{
    match Json::parse(body) {
        Some(request) => Some(build_chat_request(&request).to_bytes()),
        None => None,
    }
}

/// The Chat Completions request that a Responses request becomes.
pub fn build_chat_request(body: &Json) -> (r: Json)
    ensures
        r@ == chat_request(body@),
        r@.get("messages"@) matches Some(JsonView::Array(list)) && told(list) == meant_by_request(
            body@,
        ),
        asks_for_the_same(r@, body@),
{
    proof {
        law_messages_tell_what_is_meant(body@);
        law_request_asks_for_the_same(body@);
    }
    let mut req = Json::object().with("model", Json::string(body.text_at("model"))).with(
        "messages",
        input_to_messages(body),
    ).with("stream", body.get_or("stream", Json::Bool(false)));
    if let Some(v) = body.get("temperature") {
        if !v.is_null() {
            req = req.with("temperature", v.clone());
        }
    }
    req = req.with_some("max_tokens", body.get("max_output_tokens")).with_some(
        "top_p",
        body.get("top_p"),
    );
    if let Some(reasoning) = body.get("reasoning") {
        req = req.with_some("reasoning_effort", reasoning.get("effort"));
    }
    if let Some(tools) = body.array_at("tools") {
        let converted = convert_tools(tools);
        if converted.len() > 0 {
            req = req.with("tools", Json::Array(converted));
        }
    }
    req
}

/// The functions among the tools, in nested form.
fn convert_tools(tools: &Vec<Json>) -> (r: Vec<Json>)
    ensures
        json_items(r@) == chat_tools(json_items(tools@)),
        r@.len() == chat_tools(json_items(tools@)).len(),
{
    let mut out: Vec<Json> = Vec::new();
    let ghost all = json_items(tools@);
    let mut i: usize = 0;
    assert(all.take(0) =~= Seq::empty());
    assert(json_items(out@) =~= Seq::empty());
    while i < tools.len()
        invariant
            all == json_items(tools@),
            i <= tools@.len(),
            json_items(out@) == chat_tools(all.take(i as int)),
        decreases tools@.len() - i,
    {
        let tool = &tools[i];
        assert(all.take(i + 1).drop_last() =~= all.take(i as int));
        assert(all.take(i + 1).last() == tool@);
        if has_type(tool, "function") {
            let converted = convert_tool(tool);
            let ghost before = out@;
            out.push(converted);
            assert(json_items(out@) =~= json_items(before).push(converted@));
        }
        i += 1;
    }
    assert(all.take(tools@.len() as int) =~= all);
    out
}

/// Whether the member `type` of a value is the string `name`.
fn has_type(v: &Json, name: &str) -> (r: bool)
    ensures
        r == (v@.str_at("type"@) == Some(name@)),
{
    match v.str_at("type") {
        Some(t) => str_eq(t, name),
        None => false,
    }
}

/// The nested form of a tool.
fn convert_tool(tool: &Json) -> (r: Json)
    ensures
        r@ == chat_tool(tool@),
{
    let f = match tool.get("function") {
        Some(f) => f,
        None => tool,
    };
    Json::object().with("type", Json::string("function")).with(
        "function",
        Json::object().with("name", f.get_or("name", Json::empty_string())).with(
            "description",
            f.get_or("description", Json::empty_string()),
        ).with("parameters", f.get_or("parameters", Json::object())),
    )
}

/// The messages that the instructions and the input of a request become, as one array.
pub fn input_to_messages(body: &Json) -> (r: Json)
    ensures
        r@ == JsonView::Array(chat_messages(body@)),
        r@ matches JsonView::Array(list) && told(list) == meant_by_request(body@),
{
    proof {
        law_messages_tell_what_is_meant(body@);
        law_settings_arrive(body@);
    }
    let mut messages: Vec<Json> = Vec::new();
    assert(json_items(messages@) =~= Seq::empty());
    if let Some(instructions) = body.str_at("instructions") {
        push_item(&mut messages, text_message("system", instructions));
        assert(json_items(messages@) =~= system_messages(body@));
    }
    match body.get("input") {
        Some(Json::Str(s)) => {
            push_item(&mut messages, text_message("user", s.as_str()));
            Json::Array(messages)
        },
        Some(Json::Array(items)) => Json::Array(convert_items(messages, items)),
        _ => Json::Array(messages),
    }
}

/// Appends a value to a list.
fn push_item(items: &mut Vec<Json>, v: Json)
    ensures
        json_items(final(items)@) == json_items(old(items)@).push(v@),
        final(items)@.len() == old(items)@.len() + 1,
{
    let ghost before = items@;
    items.push(v);
    assert(json_items(items@) =~= json_items(before).push(v@));
}

/// A message with a role and a text.
fn text_message(role: &str, content: &str) -> (r: Json)
    ensures
        r@ == message(role@, content@),
{
    Json::object().with("role", Json::string(role)).with("content", Json::string(content))
}

/// The messages behind `first` that the items of the input become.
fn convert_items(first: Vec<Json>, items: &Vec<Json>) -> (r: Vec<Json>)
    ensures
        json_items(r@) == flushed(conversation(json_items(first@), json_items(items@))),
{
    let ghost start = json_items(first@);
    let ghost all = json_items(items@);
    let mut messages: Vec<Json> = first;
    let mut pending: Vec<Json> = Vec::new();
    let mut i: usize = 0;
    assert(json_items(pending@) =~= Seq::empty());
    assert(all.take(0) =~= Seq::empty());
    while i < items.len()
        invariant
            all == json_items(items@),
            i <= items@.len(),
            conversation(start, all.take(i as int)) == (Conversation {
                messages: json_items(messages@),
                pending: json_items(pending@),
            }),
        decreases items@.len() - i,
    {
        let item = &items[i];
        assert(all.take(i + 1).drop_last() =~= all.take(i as int));
        assert(all.take(i + 1).last() == item@);
        match item {
            Json::Str(s) => {
                say(&mut messages, &mut pending, text_message("user", s.as_str()));
            },
            Json::Object(_) => {
                if has_type(item, "function_call") {
                    push_item(&mut pending, convert_call(item));
                } else if has_type(item, "function_call_output") {
                    let output = Json::object().with("role", Json::string("tool")).with(
                        "tool_call_id",
                        item.get_or("call_id", Json::empty_string()),
                    ).with("content", item.get_or("output", Json::empty_string()));
                    say(&mut messages, &mut pending, output);
                } else {
                    say(&mut messages, &mut pending, convert_message(item));
                }
            },
            _ => {},
        }
        i += 1;
    }
    assert(all.take(items@.len() as int) =~= all);
    flush(&mut messages, &mut pending);
    messages
}

/// Puts the pending tool calls, if there are any, into a message of their own.
fn flush(messages: &mut Vec<Json>, pending: &mut Vec<Json>)
    ensures
        json_items(final(messages)@) == flushed(
            Conversation {
                messages: json_items(old(messages)@),
                pending: json_items(old(pending)@),
            },
        ),
        json_items(final(pending)@) == Seq::<JsonView>::empty(),
{
    if pending.len() > 0 {
        let mut calls: Vec<Json> = Vec::new();
        std::mem::swap(&mut calls, pending);
        let m = Json::object().with("role", Json::string("assistant")).with(
            "content",
            Json::Null,
        ).with("tool_calls", Json::Array(calls));
        push_item(messages, m);
    }
    assert(json_items(pending@) =~= Seq::empty());
}

/// Puts a message behind the pending tool calls.
fn say(messages: &mut Vec<Json>, pending: &mut Vec<Json>, m: Json)
    ensures
        (Conversation {
            messages: json_items(final(messages)@),
            pending: json_items(final(pending)@),
        }) == said(
            Conversation {
                messages: json_items(old(messages)@),
                pending: json_items(old(pending)@),
            },
            m@,
        ),
{
    flush(messages, pending);
    push_item(messages, m);
}

/// The tool call that a `function_call` item becomes.
fn convert_call(item: &Json) -> (r: Json)
    ensures
        r@ == tool_call(item@),
{
    let id = match item.get("call_id") {
        Some(_) => item.text_at("call_id"),
        None => item.text_at("id"),
    };
    Json::object().with("id", Json::string(id)).with("type", Json::string("function")).with(
        "function",
        Json::object().with("name", item.get_or("name", Json::empty_string())).with(
            "arguments",
            item.get_or("arguments", Json::string("{}")),
        ),
    )
}

/// The message that a message item becomes.
fn convert_message(item: &Json) -> (r: Json)
    ensures
        r@ == message(message_role(item@), content_text(item@.get("content"@))),
{
    let role = match item.str_at("role") {
        Some(role) => if str_eq(role, "developer") {
            "system"
        } else {
            role
        },
        None => "user",
    };
    let content = match item.get("content") {
        Some(Json::Array(parts)) => join(&convert_parts(parts), "\n"),
        Some(Json::Str(s)) => s.clone(),
        _ => String::new(),
    };
    text_message(role, content.as_str())
}

/// The texts of the parts that have one.
fn convert_parts(parts: &Vec<Json>) -> (r: Vec<String>)
    ensures
        texts(r@) == part_texts(json_items(parts@)),
{
    let mut out: Vec<String> = Vec::new();
    let ghost all = json_items(parts@);
    let mut i: usize = 0;
    assert(all.take(0) =~= Seq::empty());
    assert(texts(out@) =~= Seq::empty());
    while i < parts.len()
        invariant
            all == json_items(parts@),
            i <= parts@.len(),
            texts(out@) == part_texts(all.take(i as int)),
        decreases parts@.len() - i,
    {
        let part = &parts[i];
        assert(all.take(i + 1).drop_last() =~= all.take(i as int));
        assert(all.take(i + 1).last() == part@);
        let text = if has_type(part, "input_image") {
            Some("[image]")
        } else {
            part.str_at("text")
        };
        if let Some(t) = text {
            let ghost before = out@;
            out.push(t.to_owned());
            assert(texts(out@) =~= texts(before).push(t@));
        }
        i += 1;
    }
    assert(all.take(parts@.len() as int) =~= all);
    out
}

// ── What holds of every request ────────────────────────────────────────────

/// The names of the members of a request are told apart.
proof fn lemma_request_members()
    ensures
        ({
            let names = seq![
                "model"@,
                "messages"@,
                "stream"@,
                "temperature"@,
                "max_tokens"@,
                "top_p"@,
                "reasoning_effort"@,
                "tools"@,
            ];
            forall|i: int, j: int| 0 <= i < j < names.len() ==> names[i] != names[j]
        }),
{
    reveal_strlit("model");
    reveal_strlit("messages");
    reveal_strlit("stream");
    reveal_strlit("temperature");
    reveal_strlit("max_tokens");
    reveal_strlit("top_p");
    reveal_strlit("reasoning_effort");
    reveal_strlit("tools");
    assert("model"@.len() == 5);
    assert("messages"@.len() == 8);
    assert("stream"@.len() == 6);
    assert("temperature"@.len() == 11);
    assert("max_tokens"@.len() == 10);
    assert("top_p"@.len() == 5);
    assert("reasoning_effort"@.len() == 16);
    assert("tools"@.len() == 5);
    assert("model"@[2] == 'd');
    assert("top_p"@[2] == 'p');
    assert("tools"@[2] == 'o');
}

/// Each setting of a request arrives under the name that the Chat Completions API has for it,
/// and what is not set stays unset.
pub proof fn law_settings_arrive(body: JsonView)
    ensures
        ({
            let r = chat_request(body);
            &&& r.str_at("model"@) == Some(body.text_at("model"@))
            &&& r.array_at("messages"@) == Some(chat_messages(body))
            &&& r.get("stream"@) == Some(body.get_or("stream"@, JsonView::Bool(false)))
            &&& r.get("temperature"@) == non_null(body.get("temperature"@))
            &&& r.get("max_tokens"@) == body.get("max_output_tokens"@)
            &&& r.get("top_p"@) == body.get("top_p"@)
            &&& r.get("reasoning_effort"@) == nested(body, "reasoning"@, "effort"@)
            &&& r.get("tools"@) == request_tools(body)
        }),
{
    lemma_request_members();
    let names = seq![
        "model"@,
        "messages"@,
        "stream"@,
        "temperature"@,
        "max_tokens"@,
        "top_p"@,
        "reasoning_effort"@,
        "tools"@,
    ];
    assert forall|i: int, j: int|
        0 <= i < names.len() && 0 <= j < names.len() && i != j implies names[i] != names[j] by {}
    assert(names[0] == "model"@ && names[1] == "messages"@ && names[2] == "stream"@);
    assert(names[3] == "temperature"@ && names[4] == "max_tokens"@ && names[5] == "top_p"@);
    assert(names[6] == "reasoning_effort"@ && names[7] == "tools"@);
}

/// The tool calls that a message carries.
pub open spec fn carried_calls(message: JsonView) -> Seq<JsonView> {
    match message.array_at("tool_calls"@) {
        Some(calls) => calls,
        None => Seq::empty(),
    }
}

/// The tool calls that messages carry, in their order.
pub open spec fn all_carried_calls(messages: Seq<JsonView>) -> Seq<JsonView>
    decreases messages.len(),
{
    if messages.len() == 0 {
        Seq::empty()
    } else {
        all_carried_calls(messages.drop_last()) + carried_calls(messages.last())
    }
}

/// The tool calls among the items of the input, in their order.
pub open spec fn input_calls(items: Seq<JsonView>) -> Seq<JsonView>
    decreases items.len(),
{
    if items.len() == 0 {
        Seq::empty()
    } else if items.last().str_at("type"@) == Some("function_call"@) {
        input_calls(items.drop_last()).push(tool_call(items.last()))
    } else {
        input_calls(items.drop_last())
    }
}

/// Which messages carry tool calls.
proof fn lemma_carried_calls()
    ensures
        forall|role: Seq<char>, text: Seq<char>|
            #![trigger message(role, text)]
            carried_calls(message(role, text)) == Seq::<JsonView>::empty(),
        forall|item: JsonView|
            #![trigger tool_message(item)]
            carried_calls(tool_message(item)) == Seq::<JsonView>::empty(),
        forall|calls: Seq<JsonView>|
            #![trigger calls_message(calls)]
            carried_calls(calls_message(calls)) == calls,
{
    reveal_strlit("role");
    reveal_strlit("content");
    reveal_strlit("tool_call_id");
    reveal_strlit("tool_calls");
    assert("role"@.len() == 4);
    assert("content"@.len() == 7);
    assert("tool_call_id"@.len() == 12);
    assert("tool_calls"@.len() == 10);
}

/// One more message carries what it carries.
proof fn lemma_one_more_message(messages: Seq<JsonView>, m: JsonView)
    ensures
        all_carried_calls(messages.push(m)) == all_carried_calls(messages) + carried_calls(m),
{
    assert(messages.push(m).drop_last() =~= messages);
}

/// Tool calls are carried by messages, or pending.
proof fn lemma_conversation_calls(first: Seq<JsonView>, items: Seq<JsonView>)
    requires
        all_carried_calls(first) == Seq::<JsonView>::empty(),
    ensures
        ({
            let c = conversation(first, items);
            &&& all_carried_calls(c.messages) + c.pending == input_calls(items)
            &&& all_carried_calls(flushed(c)) == input_calls(items)
        }),
    decreases items.len(),
{
    lemma_carried_calls();
    let c = conversation(first, items);
    if items.len() == 0 {
        assert(all_carried_calls(first) + c.pending =~= Seq::<JsonView>::empty());
    } else {
        lemma_conversation_calls(first, items.drop_last());
        let b = conversation(first, items.drop_last());
        let item = items.last();
        match item {
            JsonView::Str(s) => {
                lemma_one_more_message(flushed(b), message("user"@, s));
            },
            JsonView::Object(_) => {
                lemma_one_more_message(flushed(b), tool_message(item));
                lemma_one_more_message(
                    flushed(b),
                    message(message_role(item), content_text(item.get("content"@))),
                );
            },
            _ => {},
        }
        assert(all_carried_calls(c.messages) + c.pending =~= input_calls(items));
    }
    lemma_one_more_message(c.messages, calls_message(c.pending));
    assert(all_carried_calls(c.messages) + Seq::<JsonView>::empty() =~= all_carried_calls(
        c.messages,
    ));
}

/// No tool call of a conversation is lost, made up or moved before another one.
pub proof fn law_tool_calls_are_kept(body: JsonView)
    ensures
        all_carried_calls(chat_messages(body)) == match body.get("input"@) {
            Some(JsonView::Array(items)) => input_calls(items),
            _ => Seq::empty(),
        },
{
    lemma_carried_calls();
    let first = system_messages(body);
    assert(all_carried_calls(Seq::empty()) =~= Seq::<JsonView>::empty());
    if let Some(s) = body.str_at("instructions"@) {
        lemma_one_more_message(Seq::empty(), message("system"@, s));
        assert(first =~= Seq::<JsonView>::empty().push(message("system"@, s)));
    }
    assert(all_carried_calls(first) =~= Seq::<JsonView>::empty());
    match body.get("input"@) {
        Some(JsonView::Str(s)) => {
            lemma_one_more_message(first, message("user"@, s));
            assert(all_carried_calls(chat_messages(body)) =~= Seq::<JsonView>::empty());
        },
        Some(JsonView::Array(items)) => {
            lemma_conversation_calls(first, items);
        },
        _ => {},
    }
}

// ── What the upstream is told ──────────────────────────────────────────────

/// What a message tells, one thing after the other, with the role that tells it.
pub enum Told {
    /// Words.
    Words { role: JsonView, content: JsonView },
    /// A call of a function.
    Call {
        role: JsonView,
        content: JsonView,
        kind: JsonView,
        id: JsonView,
        name: JsonView,
        arguments: JsonView,
    },
    /// What a call gave.
    Output { role: JsonView, id: JsonView, content: JsonView },
}

/// A member, or `null`.
pub open spec fn member(v: JsonView, key: Seq<char>) -> JsonView {
    match v.get(key) {
        Some(m) => m,
        None => JsonView::Null,
    }
}

/// What a message of a Chat Completions request tells: a message with tool calls tells these, a
/// message that names a tool call tells what it gave, and any other message its words.
pub open spec fn told_by(message: JsonView) -> Seq<Told> {
    match (message.get("tool_calls"@), message.get("tool_call_id"@)) {
        (Some(JsonView::Array(calls)), _) => calls.map_values(
            |call: JsonView|
                Told::Call {
                    role: member(message, "role"@),
                    content: member(message, "content"@),
                    kind: member(call, "type"@),
                    id: member(call, "id"@),
                    name: member(member(call, "function"@), "name"@),
                    arguments: member(member(call, "function"@), "arguments"@),
                },
        ),
        (_, Some(id)) => seq![
            Told::Output {
                role: member(message, "role"@),
                id,
                content: member(message, "content"@),
            },
        ],
        _ => seq![
            Told::Words { role: member(message, "role"@), content: member(message, "content"@) },
        ],
    }
}

/// What messages tell, one after the other.
pub open spec fn told(messages: Seq<JsonView>) -> Seq<Told>
    decreases messages.len(),
{
    if messages.len() == 0 {
        Seq::empty()
    } else {
        told(messages.drop_last()) + told_by(messages.last())
    }
}

/// The lines of the parts of a content: the text of a part, or a mark for an image.
pub open spec fn lines_of(parts: Seq<JsonView>) -> Seq<Seq<char>>
    decreases parts.len(),
{
    if parts.len() == 0 {
        Seq::empty()
    } else {
        let before = lines_of(parts.drop_last());
        let part = parts.last();
        if part.get("type"@) == Some(JsonView::Str("input_image"@)) {
            before.push("[image]"@)
        } else {
            match part.get("text"@) {
                Some(JsonView::Str(text)) => before.push(text),
                _ => before,
            }
        }
    }
}

/// The characters of lines, with a line feed between two of them.
pub open spec fn as_lines(lines: Seq<Seq<char>>) -> Seq<char>
    decreases lines.len(),
{
    if lines.len() == 0 {
        Seq::empty()
    } else if lines.len() == 1 {
        lines.last()
    } else {
        as_lines(lines.drop_last()).push('\n') + lines.last()
    }
}

/// What an item of the input of a Responses request means.
pub open spec fn meant_by(item: JsonView) -> Seq<Told> {
    match item {
        JsonView::Str(_) => seq![
            Told::Words { role: JsonView::Str("user"@), content: item },
        ],
        JsonView::Object(members) => {
            let kind = item.get("type"@);
            if kind == Some(JsonView::Str("function_call"@)) {
                let named = if members.contains_key("call_id"@) {
                    members["call_id"@]
                } else {
                    member(item, "id"@)
                };
                seq![
                    Told::Call {
                        role: JsonView::Str("assistant"@),
                        content: JsonView::Null,
                        kind: JsonView::Str("function"@),
                        id: if named is Str {
                            named
                        } else {
                            JsonView::Str(Seq::empty())
                        },
                        name: if members.contains_key("name"@) {
                            members["name"@]
                        } else {
                            JsonView::Str(Seq::empty())
                        },
                        arguments: if members.contains_key("arguments"@) {
                            members["arguments"@]
                        } else {
                            JsonView::Str("{}"@)
                        },
                    },
                ]
            } else if kind == Some(JsonView::Str("function_call_output"@)) {
                seq![
                    Told::Output {
                        role: JsonView::Str("tool"@),
                        id: if members.contains_key("call_id"@) {
                            members["call_id"@]
                        } else {
                            JsonView::Str(Seq::empty())
                        },
                        content: if members.contains_key("output"@) {
                            members["output"@]
                        } else {
                            JsonView::Str(Seq::empty())
                        },
                    },
                ]
            } else {
                seq![
                    Told::Words {
                        role: match item.get("role"@) {
                            Some(JsonView::Str(role)) => if role == "developer"@ {
                                JsonView::Str("system"@)
                            } else {
                                JsonView::Str(role)
                            },
                            _ => JsonView::Str("user"@),
                        },
                        content: match item.get("content"@) {
                            Some(JsonView::Str(text)) => JsonView::Str(text),
                            Some(JsonView::Array(parts)) => JsonView::Str(
                                as_lines(lines_of(parts)),
                            ),
                            _ => JsonView::Str(Seq::empty()),
                        },
                    },
                ]
            }
        },
        _ => Seq::empty(),
    }
}

/// What items of the input mean, one after the other.
pub open spec fn meant(items: Seq<JsonView>) -> Seq<Told>
    decreases items.len(),
{
    if items.len() == 0 {
        Seq::empty()
    } else {
        meant(items.drop_last()) + meant_by(items.last())
    }
}

/// What a whole Responses request means: its instructions come from the system, and a text as its
/// input from the user.
pub open spec fn meant_by_request(body: JsonView) -> Seq<Told> {
    let first = match body.get("instructions"@) {
        Some(JsonView::Str(text)) => seq![
            Told::Words { role: JsonView::Str("system"@), content: JsonView::Str(text) },
        ],
        _ => Seq::empty(),
    };
    match body.get("input"@) {
        Some(JsonView::Str(text)) => first.push(
            Told::Words { role: JsonView::Str("user"@), content: JsonView::Str(text) },
        ),
        Some(JsonView::Array(items)) => first + meant(items),
        _ => first,
    }
}

/// The members of messages and tool calls are told apart.
proof fn lemma_message_members()
    ensures
        forall|role: Seq<char>, text: Seq<char>|
            #![trigger message(role, text)]
            told_by(message(role, text)) == seq![
                Told::Words { role: JsonView::Str(role), content: JsonView::Str(text) },
            ],
        forall|item: JsonView|
            #![trigger tool_message(item)]
            item.get("type"@) == Some(JsonView::Str("function_call_output"@)) ==> told_by(
                tool_message(item),
            ) == meant_by(item),
        forall|item: JsonView|
            #![trigger tool_call(item)]
            item.get("type"@) == Some(JsonView::Str("function_call"@)) ==> told_by(
                calls_message(seq![tool_call(item)]),
            ) == meant_by(item),
        forall|calls: Seq<JsonView>|
            #![trigger calls_message(calls)]
            {
                &&& calls_message(calls).get("tool_calls"@) == Some(JsonView::Array(calls))
                &&& calls_message(calls).get("role"@) == Some(JsonView::Str("assistant"@))
                &&& calls_message(calls).get("content"@) == Some(JsonView::Null)
            },
        forall|role: Seq<char>, text: Seq<char>|
            #![trigger message(role, text)]
            message(role, text).get("tool_calls"@) is None,
        forall|item: JsonView|
            #![trigger tool_message(item)]
            tool_message(item).get("tool_calls"@) is None,
{
    reveal_strlit("role");
    reveal_strlit("content");
    reveal_strlit("tool_calls");
    reveal_strlit("tool_call_id");
    reveal_strlit("id");
    reveal_strlit("type");
    reveal_strlit("function");
    reveal_strlit("name");
    reveal_strlit("arguments");
    reveal_strlit("description");
    reveal_strlit("parameters");
    reveal_strlit("function_call");
    reveal_strlit("function_call_output");
    reveal_strlit("input_image");
    reveal_strlit("developer");
    assert("role"@.len() == 4);
    assert("content"@.len() == 7);
    assert("tool_calls"@.len() == 10);
    assert("tool_call_id"@.len() == 12);
    assert("id"@.len() == 2);
    assert("type"@.len() == 4);
    assert("function"@.len() == 8);
    assert("name"@.len() == 4);
    assert("arguments"@.len() == 9);
    assert("description"@.len() == 11);
    assert("parameters"@.len() == 10);
    assert("function_call"@.len() == 13);
    assert("function_call_output"@.len() == 20);
    assert("input_image"@.len() == 11);
    assert("developer"@.len() == 9);
    assert("arguments"@[0] == 'a');
    assert("description"@[0] == 'd');
    assert("developer"@[0] == 'd');
    assert("input_image"@[0] == 'i');
    assert("name"@[0] == 'n');
    assert("parameters"@[0] == 'p');
    assert("role"@[0] == 'r');
    assert("tool_calls"@[0] == 't');
    assert("type"@[0] == 't');
    assert forall|item: JsonView|
        item.get("type"@) == Some(JsonView::Str("function_call_output"@)) implies told_by(
        #[trigger] tool_message(item),
    ) == meant_by(item) by {
        assert(told_by(tool_message(item)) =~= meant_by(item));
    }
    assert forall|item: JsonView|
        item.get("type"@) == Some(JsonView::Str("function_call"@)) implies told_by(
        calls_message(seq![#[trigger] tool_call(item)]),
    ) == meant_by(item) by {
        assert(told_by(calls_message(seq![tool_call(item)])) =~= meant_by(item));
    }
}

/// The lines of parts are their texts.
proof fn lemma_lines(parts: Seq<JsonView>)
    ensures
        part_texts(parts) == lines_of(parts),
    decreases parts.len(),
{
    if parts.len() > 0 {
        lemma_lines(parts.drop_last());
    }
}

/// Lines are joined by line feeds.
proof fn lemma_as_lines(lines: Seq<Seq<char>>)
    ensures
        joined(lines, "\n"@) == as_lines(lines),
    decreases lines.len(),
{
    reveal_strlit("\n");
    if lines.len() > 1 {
        lemma_as_lines(lines.drop_last());
        assert(joined(lines, "\n"@) =~= as_lines(lines));
    }
}

/// One more call in a message is one more thing that it tells.
proof fn lemma_one_more_call(calls: Seq<JsonView>, call: JsonView)
    ensures
        told_by(calls_message(calls.push(call))) == told_by(calls_message(calls)) + told_by(
            calls_message(seq![call]),
        ),
{
    lemma_message_members();
    assert(told_by(calls_message(calls.push(call))) =~= told_by(calls_message(calls)) + told_by(
        calls_message(seq![call]),
    ));
}

/// One more message tells what it tells.
proof fn lemma_one_more_told(messages: Seq<JsonView>, m: JsonView)
    ensures
        told(messages.push(m)) == told(messages) + told_by(m),
{
    assert(messages.push(m).drop_last() =~= messages);
}

/// What is told and what is pending is what was meant.
proof fn lemma_conversation_told(first: Seq<JsonView>, items: Seq<JsonView>)
    ensures
        ({
            let c = conversation(first, items);
            &&& told(c.messages) + told_by(calls_message(c.pending)) == told(first) + meant(items)
            &&& told(flushed(c)) == told(first) + meant(items)
        }),
    decreases items.len(),
{
    lemma_message_members();
    let c = conversation(first, items);
    if items.len() == 0 {
        assert(told(first) + told_by(calls_message(c.pending)) =~= told(first) + meant(items));
    } else {
        lemma_conversation_told(first, items.drop_last());
        let b = conversation(first, items.drop_last());
        let item = items.last();
        let before = told(first) + meant(items.drop_last());
        assert(told(first) + meant(items) =~= before + meant_by(item));
        assert(calls_message(Seq::empty()).get("tool_calls"@) == Some(
            JsonView::Array(Seq::<JsonView>::empty()),
        ));
        assert(told_by(calls_message(Seq::empty())) =~= Seq::<Told>::empty());
        match item {
            JsonView::Str(s) => {
                lemma_one_more_told(flushed(b), message("user"@, s));
                assert(told(c.messages) + told_by(calls_message(c.pending)) =~= before + meant_by(
                    item,
                ));
            },
            JsonView::Object(_) => {
                if item.str_at("type"@) == Some("function_call"@) {
                    lemma_one_more_call(b.pending, tool_call(item));
                    assert(told_by(calls_message(seq![tool_call(item)])) == meant_by(item));
                    assert(told(c.messages) + told_by(calls_message(c.pending)) =~= before
                        + meant_by(item));
                } else if item.str_at("type"@) == Some("function_call_output"@) {
                    lemma_one_more_told(flushed(b), tool_message(item));
                    assert(told_by(tool_message(item)) == meant_by(item));
                    assert(told(c.messages) + told_by(calls_message(c.pending)) =~= before
                        + meant_by(item));
                } else {
                    let m = message(message_role(item), content_text(item.get("content"@)));
                    if let Some(JsonView::Array(parts)) = item.get("content"@) {
                        lemma_lines(parts);
                        lemma_as_lines(lines_of(parts));
                    }
                    lemma_one_more_told(flushed(b), m);
                    assert(told_by(m) =~= meant_by(item));
                    assert(told(c.messages) + told_by(calls_message(c.pending)) =~= before
                        + meant_by(item));
                }
            },
            _ => {
                assert(told(c.messages) + told_by(calls_message(c.pending)) =~= before + meant_by(
                    item,
                ));
            },
        }
    }
    lemma_one_more_told(c.messages, calls_message(c.pending));
    if c.pending.len() == 0 {
        assert(c.pending =~= Seq::empty());
        assert(calls_message(Seq::empty()).get("tool_calls"@) == Some(
            JsonView::Array(Seq::<JsonView>::empty()),
        ));
        assert(told_by(calls_message(c.pending)) =~= Seq::<Told>::empty());
        assert(told(c.messages) + Seq::<Told>::empty() =~= told(c.messages));
    }
}

/// The messages of a Chat Completions request tell what the Responses request means, all of it and
/// nothing else, in its order: the instructions, the words of each side, every call of a function
/// with its name, arguments and identifier, and what every call gave, under the identifier that
/// the item names.
pub proof fn law_messages_tell_what_is_meant(body: JsonView)
    ensures
        ({
            let messages = chat_request(body).get("messages"@);
            &&& messages matches Some(JsonView::Array(list)) && told(list) == meant_by_request(body)
        }),
{
    law_settings_arrive(body);
    lemma_message_members();
    let first = system_messages(body);
    assert(told(Seq::empty()) =~= Seq::<Told>::empty());
    if let Some(s) = body.str_at("instructions"@) {
        lemma_one_more_told(Seq::empty(), message("system"@, s));
        assert(first =~= Seq::<JsonView>::empty().push(message("system"@, s)));
        assert(told(first) =~= seq![
            Told::Words { role: JsonView::Str("system"@), content: JsonView::Str(s) },
        ]);
    }
    match body.get("input"@) {
        Some(JsonView::Str(s)) => {
            lemma_one_more_told(first, message("user"@, s));
            assert(told(chat_messages(body)) =~= meant_by_request(body));
        },
        Some(JsonView::Array(items)) => {
            lemma_conversation_told(first, items);
        },
        _ => {},
    }
}

/// What a function call gave is told under the identifier under which the call is told: if an item
/// for a call and an item for an output name the same identifier, so do the things that are told
/// for them, and the output is what the item holds.
pub proof fn law_output_names_its_call(call: JsonView, output: JsonView, id: Seq<char>)
    requires
        call.get("type"@) == Some(JsonView::Str("function_call"@)),
        output.get("type"@) == Some(JsonView::Str("function_call_output"@)),
        call.get("call_id"@) == Some(JsonView::Str(id)),
        output.get("call_id"@) == Some(JsonView::Str(id)),
    ensures
        tool_call(call).get("id"@) == Some(JsonView::Str(id)),
        tool_message(output).get("tool_call_id"@) == Some(JsonView::Str(id)),
        tool_message(output).get("role"@) == Some(JsonView::Str("tool"@)),
        output.get("output"@) is Some ==> tool_message(output).get("content"@) == output.get(
            "output"@,
        ),
        call.get("name"@) is Some ==> member(member(tool_call(call), "function"@), "name"@)
            == member(call, "name"@),
        call.get("arguments"@) is Some ==> member(
            member(tool_call(call), "function"@),
            "arguments"@,
        ) == member(call, "arguments"@),
{
    reveal_strlit("role");
    reveal_strlit("content");
    reveal_strlit("tool_calls");
    reveal_strlit("tool_call_id");
    reveal_strlit("id");
    reveal_strlit("type");
    reveal_strlit("function");
    reveal_strlit("name");
    reveal_strlit("arguments");
    reveal_strlit("description");
    reveal_strlit("parameters");
    assert("role"@.len() == 4);
    assert("content"@.len() == 7);
    assert("tool_calls"@.len() == 10);
    assert("tool_call_id"@.len() == 12);
    assert("id"@.len() == 2);
    assert("type"@.len() == 4);
    assert("function"@.len() == 8);
    assert("name"@.len() == 4);
    assert("arguments"@.len() == 9);
    assert("description"@.len() == 11);
    assert("parameters"@.len() == 10);
    assert("name"@[0] == 'n');
    assert("parameters"@[0] == 'p');
    assert("role"@[0] == 'r');
    assert("tool_calls"@[0] == 't');
    assert("type"@[0] == 't');
}

/// A message of a conversation tells something, and no two messages with tool calls follow each
/// other: the calls of one turn stay together.
pub open spec fn grouped_calls(messages: Seq<JsonView>) -> bool {
    &&& forall|i: int|
        0 <= i < messages.len() ==> told_by(#[trigger] messages[i]).len() > 0
    &&& forall|i: int|
        0 < i < messages.len() ==> !((#[trigger] messages[i]).get("tool_calls"@) is Some && messages[i
            - 1].get("tool_calls"@) is Some)
}

/// The calls are grouped, and the last message carries none while some are pending.
proof fn lemma_grouped(first: Seq<JsonView>, items: Seq<JsonView>)
    requires
        grouped_calls(first),
        first.len() > 0 ==> first.last().get("tool_calls"@) is None,
    ensures
        ({
            let c = conversation(first, items);
            &&& grouped_calls(c.messages)
            &&& c.messages.len() > 0 ==> c.messages.last().get("tool_calls"@) is None
            &&& grouped_calls(flushed(c))
        }),
    decreases items.len(),
{
    lemma_message_members();
    let c = conversation(first, items);
    if items.len() > 0 {
        lemma_grouped(first, items.drop_last());
        let b = conversation(first, items.drop_last());
        let item = items.last();
        let f = flushed(b);
        match item {
            JsonView::Str(s) => {
                lemma_grouped_push(f, message("user"@, s));
            },
            JsonView::Object(_) => {
                if item.str_at("type"@) == Some("function_call"@) {
                } else if item.str_at("type"@) == Some("function_call_output"@) {
                    assert(told_by(tool_message(item)) == meant_by(item));
                    lemma_grouped_push(f, tool_message(item));
                } else {
                    lemma_grouped_push(
                        f,
                        message(message_role(item), content_text(item.get("content"@))),
                    );
                }
            },
            _ => {},
        }
    }
    if c.pending.len() > 0 {
        let m = calls_message(c.pending);
        assert(told_by(m).len() == c.pending.len());
        assert forall|i: int| 0 <= i < c.messages.push(m).len() implies told_by(
            #[trigger] c.messages.push(m)[i],
        ).len() > 0 by {
            if i < c.messages.len() {
                assert(told_by(c.messages[i]).len() > 0);
            }
        }
        assert forall|i: int| 0 < i < c.messages.push(m).len() implies !((
        #[trigger] c.messages.push(m)[i]).get("tool_calls"@) is Some && c.messages.push(m)[i - 1].get(
            "tool_calls"@,
        ) is Some) by {
            if i < c.messages.len() {
                assert(c.messages.push(m)[i] == c.messages[i]);
            }
        }
    }
}

/// A message without tool calls may follow any message.
proof fn lemma_grouped_push(messages: Seq<JsonView>, m: JsonView)
    requires
        grouped_calls(messages),
        m.get("tool_calls"@) is None,
        told_by(m).len() > 0,
    ensures
        grouped_calls(messages.push(m)),
{
    assert forall|i: int| 0 <= i < messages.push(m).len() implies told_by(
        #[trigger] messages.push(m)[i],
    ).len() > 0 by {
        if i < messages.len() {
            assert(told_by(messages[i]).len() > 0);
        }
    }
    assert forall|i: int| 0 < i < messages.push(m).len() implies !((#[trigger] messages.push(
        m,
    )[i]).get("tool_calls"@) is Some && messages.push(m)[i - 1].get("tool_calls"@) is Some) by {
        if i < messages.len() {
            assert(messages.push(m)[i] == messages[i]);
        }
    }
}

/// Calls that follow each other are told by one message, and every message tells something.
pub proof fn law_calls_stay_together(body: JsonView)
    ensures
        grouped_calls(chat_messages(body)),
{
    lemma_message_members();
    let first = system_messages(body);
    assert(grouped_calls(Seq::<JsonView>::empty()));
    if let Some(s) = body.str_at("instructions"@) {
        lemma_grouped_push(Seq::empty(), message("system"@, s));
        assert(first =~= Seq::<JsonView>::empty().push(message("system"@, s)));
    }
    match body.get("input"@) {
        Some(JsonView::Str(s)) => {
            lemma_grouped_push(first, message("user"@, s));
        },
        Some(JsonView::Array(items)) => {
            lemma_grouped(first, items);
        },
        _ => {},
    }
}

// ── What the upstream is asked for ─────────────────────────────────────────

/// The functions among tools, in their order.
pub open spec fn functions_among(tools: Seq<JsonView>) -> Seq<JsonView>
    decreases tools.len(),
{
    if tools.len() == 0 {
        Seq::empty()
    } else if tools.last().get("type"@) == Some(JsonView::Str("function"@)) {
        functions_among(tools.drop_last()).push(tools.last())
    } else {
        functions_among(tools.drop_last())
    }
}

/// `described` is the nested form of the function `tool`: its name, description and parameters,
/// which stand in the tool itself or in its member `function`.
pub open spec fn describes(described: JsonView, tool: JsonView) -> bool {
    let from = match tool.get("function"@) {
        Some(inner) => inner,
        None => tool,
    };
    let to = member(described, "function"@);
    &&& described.get("type"@) == Some(JsonView::Str("function"@))
    &&& to.get("name"@) == Some(
        match from.get("name"@) {
            Some(name) => name,
            None => JsonView::Str(Seq::empty()),
        },
    )
    &&& to.get("description"@) == Some(
        match from.get("description"@) {
            Some(text) => text,
            None => JsonView::Str(Seq::empty()),
        },
    )
    &&& to.get("parameters"@) == Some(
        match from.get("parameters"@) {
            Some(parameters) => parameters,
            None => JsonView::Object(Map::empty()),
        },
    )
}

/// The tools are the functions.
proof fn lemma_tools(tools: Seq<JsonView>)
    ensures
        chat_tools(tools).len() == functions_among(tools).len(),
        forall|i: int|
            0 <= i < functions_among(tools).len() ==> describes(
                chat_tools(tools)[i],
                #[trigger] functions_among(tools)[i],
            ),
    decreases tools.len(),
{
    if tools.len() > 0 {
        lemma_tools(tools.drop_last());
        assert(describes(chat_tool(tools.last()), tools.last())) by {
            reveal_strlit("type");
            reveal_strlit("function");
            reveal_strlit("name");
            reveal_strlit("description");
            reveal_strlit("parameters");
            assert("type"@.len() == 4);
            assert("function"@.len() == 8);
            assert("name"@.len() == 4);
            assert("description"@.len() == 11);
            assert("parameters"@.len() == 10);
            assert("name"@[0] == 'n');
            assert("type"@[0] == 't');
        }
        let earlier = functions_among(tools.drop_last());
        assert forall|i: int| 0 <= i < functions_among(tools).len() implies describes(
            chat_tools(tools)[i],
            #[trigger] functions_among(tools)[i],
        ) by {
            if i < earlier.len() {
                assert(functions_among(tools)[i] == earlier[i]);
                assert(chat_tools(tools)[i] == chat_tools(tools.drop_last())[i]);
            }
        }
    }
}

/// A Chat Completions request asks for what a Responses request asks for: each setting stands under
/// the name that the Chat Completions API has for it, what is not set stays unset, and nothing else
/// is asked for. The tools that are functions are offered in their order, each with its name,
/// description and parameters.
pub open spec fn asks_for_the_same(r: JsonView, body: JsonView) -> bool {
    let tools = match body.get("tools"@) {
        Some(JsonView::Array(tools)) => functions_among(tools),
        _ => Seq::empty(),
    };
    &&& r.get("model"@) == Some(
        match body.get("model"@) {
            Some(JsonView::Str(model)) => JsonView::Str(model),
            _ => JsonView::Str(Seq::empty()),
        },
    )
    &&& r.get("stream"@) == Some(
        match body.get("stream"@) {
            Some(stream) => stream,
            None => JsonView::Bool(false),
        },
    )
    &&& r.get("temperature"@) == if body.get("temperature"@) == Some(JsonView::Null) {
        None
    } else {
        body.get("temperature"@)
    }
    &&& r.get("max_tokens"@) == body.get("max_output_tokens"@)
    &&& r.get("top_p"@) == body.get("top_p"@)
    &&& r.get("reasoning_effort"@) == match body.get("reasoning"@) {
        Some(reasoning) => reasoning.get("effort"@),
        None => None,
    }
    &&& if tools.len() == 0 {
        r.get("tools"@) is None
    } else {
        &&& r.array_at("tools"@) is Some
        &&& r.array_at("tools"@)->0.len() == tools.len()
        &&& forall|i: int|
            0 <= i < tools.len() ==> describes(
                r.array_at("tools"@)->0[i],
                #[trigger] tools[i],
            )
    }
    &&& forall|other: Seq<char>|
        other != "model"@ && other != "messages"@ && other != "stream"@ && other != "temperature"@
            && other != "max_tokens"@ && other != "top_p"@ && other != "reasoning_effort"@ && other
            != "tools"@ ==> (#[trigger] r.get(other)) is None
}

/// The Chat Completions request that a Responses request becomes asks for the same.
pub proof fn law_request_asks_for_the_same(body: JsonView)
    ensures
        asks_for_the_same(chat_request(body), body),
{
    law_settings_arrive(body);
    if let Some(tools) = body.array_at("tools"@) {
        lemma_tools(tools);
    }
}

}
