//! Streams of the Chat Completions API as streams of the Responses API.

use crate::clock::{seconds_in, unix_seconds};
use crate::ids::{is_id, make_id};
use crate::json::{empty_object, json_items, json_parse, Json, JsonView};
use crate::sse::{events_text, lemma_events_concat, lemma_events_empty, push_event};
use crate::text::{after_prefix, str_eq, strip_prefix, trim, trimmed};
use crate::transform::response::{
    assistant_item, completed_response, finished_response, message_item, output_text, text_part,
    token_usage, usage_object,
};
use vstd::prelude::*;
use vstd::string::StringExecFns;
use vstd::utf8::encode_utf8;

verus! {

broadcast use vstd::string::group_string_axioms;

// ── The state of a stream ──────────────────────────────────────────────────

/// A tool call whose parts arrive one after the other.
#[derive(Debug)]
pub struct ToolCallState {
    pub id: String,
    pub index: usize,
    pub name: String,
    pub arguments: String,
    pub output_index: usize,
}

/// What is known of a stream so far.
pub struct StreamTransformState {
    pub msg_id: String,
    pub resp_id: String,
    pub model: String,
    pub created: u64,
    pub full_text: String,
    pub total_input: u64,
    pub total_output: u64,
    pub msg_closed: bool,
    /// The place of the next output item: 0 while the message is open, 1 after it is closed.
    pub output_index: usize,
    pub active_tool_calls: Vec<ToolCallState>,
    pub completed_tool_calls: Vec<ToolCallState>,
    /// Whether the events that open the response have been sent.
    pub headers_emitted: bool,
    /// Whether the events that end the response have been sent.
    pub ended: bool,
}

/// A tool call.
pub struct CallView {
    pub id: Seq<char>,
    pub index: usize,
    pub name: Seq<char>,
    pub arguments: Seq<char>,
    pub output_index: usize,
}

/// The state of a stream.
pub struct StreamView {
    pub msg_id: Seq<char>,
    pub resp_id: Seq<char>,
    pub model: Seq<char>,
    pub created: u64,
    pub full_text: Seq<char>,
    pub total_input: u64,
    pub total_output: u64,
    pub msg_closed: bool,
    pub output_index: usize,
    pub active: Seq<CallView>,
    pub completed: Seq<CallView>,
    pub headers_emitted: bool,
    pub ended: bool,
}

impl View for ToolCallState {
    type V = CallView;

    open spec fn view(&self) -> CallView {
        CallView {
            id: self.id@,
            index: self.index,
            name: self.name@,
            arguments: self.arguments@,
            output_index: self.output_index,
        }
    }
}

/// The tool calls of a list.
pub open spec fn calls_view(calls: Seq<ToolCallState>) -> Seq<CallView> {
    calls.map_values(|c: ToolCallState| c@)
}

impl View for StreamTransformState {
    type V = StreamView;

    open spec fn view(&self) -> StreamView {
        StreamView {
            msg_id: self.msg_id@,
            resp_id: self.resp_id@,
            model: self.model@,
            created: self.created,
            full_text: self.full_text@,
            total_input: self.total_input,
            total_output: self.total_output,
            msg_closed: self.msg_closed,
            output_index: self.output_index,
            active: calls_view(self.active_tool_calls@),
            completed: calls_view(self.completed_tool_calls@),
            headers_emitted: self.headers_emitted,
            ended: self.ended,
        }
    }
}

/// The state of a stream of which nothing has arrived.
pub open spec fn fresh(
    model: Seq<char>,
    msg_id: Seq<char>,
    resp_id: Seq<char>,
    created: u64,
) -> StreamView {
    StreamView {
        msg_id,
        resp_id,
        model,
        created,
        full_text: Seq::empty(),
        total_input: 0,
        total_output: 0,
        msg_closed: false,
        output_index: 0,
        active: Seq::empty(),
        completed: Seq::empty(),
        headers_emitted: false,
        ended: false,
    }
}

// ── The events ─────────────────────────────────────────────────────────────

/// The response as it is announced.
pub open spec fn announced_response(s: StreamView) -> JsonView {
    JsonView::Object(
        map![
            "id"@ => JsonView::Str(s.resp_id),
            "object"@ => JsonView::Str("response"@),
            "created_at"@ => JsonView::Int(s.created as int),
            "status"@ => JsonView::Str("in_progress"@),
            "model"@ => JsonView::Str(s.model),
            "output"@ => JsonView::Array(Seq::empty()),
            "usage"@ => JsonView::Null,
        ],
    )
}

/// An event about the response as a whole.
pub open spec fn response_event(kind: Seq<char>, response: JsonView) -> JsonView {
    JsonView::Object(map!["type"@ => JsonView::Str(kind), "response"@ => response])
}

/// An event about an output item.
pub open spec fn item_event(kind: Seq<char>, output_index: int, item: JsonView) -> JsonView {
    JsonView::Object(
        map![
            "type"@ => JsonView::Str(kind),
            "output_index"@ => JsonView::Int(output_index),
            "item"@ => item,
        ],
    )
}

/// An event about the text of the message.
pub open spec fn part_event(kind: Seq<char>, text: Seq<char>) -> JsonView {
    JsonView::Object(
        map![
            "type"@ => JsonView::Str(kind),
            "output_index"@ => JsonView::Int(0),
            "content_index"@ => JsonView::Int(0),
            "part"@ => text_part(text),
        ],
    )
}

/// An event with a piece of the text or of the reasoning.
pub open spec fn delta_event(kind: Seq<char>, item_id: Seq<char>, delta: Seq<char>) -> JsonView {
    JsonView::Object(
        map![
            "type"@ => JsonView::Str(kind),
            "item_id"@ => JsonView::Str(item_id),
            "output_index"@ => JsonView::Int(0),
            "content_index"@ => JsonView::Int(0),
            "delta"@ => JsonView::Str(delta),
        ],
    )
}

/// An event about the arguments of a tool call.
pub open spec fn arguments_event(
    kind: Seq<char>,
    call: CallView,
    key: Seq<char>,
    text: Seq<char>,
) -> JsonView {
    JsonView::Object(
        map![
            "type"@ => JsonView::Str(kind),
            "item_id"@ => JsonView::Str(call.id),
            "output_index"@ => JsonView::Int(call.output_index as int),
            key => JsonView::Str(text),
        ],
    )
}

/// The output item for a tool call.
pub open spec fn call_item(call: CallView, arguments: Seq<char>, status: Seq<char>) -> JsonView {
    JsonView::Object(
        map![
            "id"@ => JsonView::Str(call.id),
            "type"@ => JsonView::Str("function_call"@),
            "call_id"@ => JsonView::Str(call.id),
            "name"@ => JsonView::Str(call.name),
            "arguments"@ => JsonView::Str(arguments),
            "status"@ => JsonView::Str(status),
        ],
    )
}

/// The output item for a tool call that is complete.
pub open spec fn done_item(call: CallView) -> JsonView {
    call_item(call, call.arguments, "completed"@)
}

/// The events that open the response and its message.
pub open spec fn header_events(s: StreamView) -> Seq<JsonView> {
    seq![
        response_event("response.created"@, announced_response(s)),
        response_event("response.in_progress"@, announced_response(s)),
        item_event(
            "response.output_item.added"@,
            0,
            message_item(s.msg_id, "in_progress"@, Seq::empty()),
        ),
        part_event("response.content_part.added"@, Seq::empty()),
    ]
}

/// The message with all its text.
pub open spec fn full_message(s: StreamView) -> JsonView {
    message_item(s.msg_id, "completed"@, seq![text_part(s.full_text)])
}

/// The events that close the message.
pub open spec fn close_events(s: StreamView) -> Seq<JsonView> {
    seq![
        part_event("response.content_part.done"@, s.full_text),
        item_event("response.output_item.done"@, 0, full_message(s)),
    ]
}

/// The events that complete a tool call.
pub open spec fn done_events(call: CallView) -> Seq<JsonView> {
    seq![
        arguments_event(
            "response.function_call_arguments.done"@,
            call,
            "arguments"@,
            call.arguments,
        ),
        item_event("response.output_item.done"@, call.output_index as int, done_item(call)),
    ]
}

/// The events that complete tool calls, one call after the other.
pub open spec fn all_done_events(calls: Seq<CallView>) -> Seq<JsonView>
    decreases calls.len(),
{
    if calls.len() == 0 {
        Seq::empty()
    } else {
        all_done_events(calls.drop_last()) + done_events(calls.last())
    }
}

// ── What a chunk does ──────────────────────────────────────────────────────

/// A new state, and the events on the way to it.
pub struct Progress {
    pub state: StreamView,
    pub events: Seq<JsonView>,
}

/// Nothing happens.
pub open spec fn still(s: StreamView) -> Progress {
    Progress { state: s, events: Seq::empty() }
}

/// The second step follows the first one.
pub open spec fn chain(first: Progress, second: Progress) -> Progress {
    Progress { state: second.state, events: first.events + second.events }
}

/// The response is opened, unless it is open.
pub open spec fn opening(s: StreamView) -> Progress {
    if s.headers_emitted {
        still(s)
    } else {
        Progress { state: StreamView { headers_emitted: true, ..s }, events: header_events(s) }
    }
}

/// The message is closed, unless it is closed.
pub open spec fn closing(s: StreamView) -> Progress {
    if s.msg_closed {
        still(s)
    } else {
        Progress {
            state: StreamView { msg_closed: true, output_index: 1, ..s },
            events: close_events(s),
        }
    }
}

/// A piece of the reasoning is passed on.
pub open spec fn reasoning_step(s: StreamView, delta: JsonView) -> Progress {
    let text = delta.text_at("reasoning_content"@);
    if text.len() == 0 {
        still(s)
    } else {
        Progress {
            state: s,
            events: seq![delta_event("response.reasoning_text.delta"@, s.msg_id, text)],
        }
    }
}

/// A piece of the text is passed on and kept.
pub open spec fn text_step(s: StreamView, delta: JsonView) -> Progress {
    let text = delta.text_at("content"@);
    if text.len() == 0 {
        still(s)
    } else {
        Progress {
            state: StreamView { full_text: s.full_text + text, ..s },
            events: seq![delta_event("response.output_text.delta"@, s.msg_id, text)],
        }
    }
}

/// Pieces of the reasoning and of the text are passed on.
pub open spec fn words_step(s: StreamView, delta: JsonView) -> Progress {
    let reasoned = reasoning_step(s, delta);
    chain(reasoned, text_step(reasoned.state, delta))
}

/// The place of the first call with this index, or the number of calls if there is none.
pub open spec fn call_at(calls: Seq<CallView>, index: usize) -> int
    decreases calls.len(),
{
    if calls.len() == 0 || calls[0].index == index {
        0
    } else {
        1 + call_at(calls.skip(1), index)
    }
}

/// The sum of two places, modulo the size of a machine word.
pub open spec fn wrapping_sum(a: usize, b: usize) -> usize {
    if a + b > usize::MAX {
        (a + b - usize::MAX - 1) as usize
    } else {
        (a + b) as usize
    }
}

/// The function of a tool call, or an empty object.
pub open spec fn call_function(call: JsonView) -> JsonView {
    call.get_or("function"@, empty_object())
}

/// The index of a tool call.
pub open spec fn call_index(call: JsonView) -> usize {
    call.count_at("index"@) as usize
}

/// The tool call that a first piece of it opens.
pub open spec fn opened_call(s: StreamView, call: JsonView) -> CallView {
    CallView {
        id: call.text_at("id"@),
        index: call_index(call),
        name: call_function(call).text_at("name"@),
        arguments: call_function(call).text_at("arguments"@),
        output_index: wrapping_sum(s.output_index, call_index(call)),
    }
}

/// A piece of a tool call: the first one closes the message and opens the call, a later one
/// adds to the arguments.
pub open spec fn call_step(s: StreamView, call: JsonView) -> Progress {
    let i = call_at(s.active, call_index(call));
    if i < s.active.len() {
        let piece = call_function(call).text_at("arguments"@);
        let old_call = s.active[i];
        let new_call = CallView { arguments: old_call.arguments + piece, ..old_call };
        Progress {
            state: StreamView { active: s.active.update(i, new_call), ..s },
            events: seq![
                arguments_event(
                    "response.function_call_arguments.delta"@,
                    old_call,
                    "delta"@,
                    piece,
                ),
            ],
        }
    } else {
        let closed = closing(s);
        let new_call = opened_call(closed.state, call);
        chain(
            closed,
            Progress {
                state: StreamView {
                    active: closed.state.active.push(new_call),
                    ..closed.state
                },
                events: seq![
                    item_event(
                        "response.output_item.added"@,
                        new_call.output_index as int,
                        call_item(new_call, Seq::empty(), "in_progress"@),
                    ),
                ],
            },
        )
    }
}

/// Pieces of tool calls, one after the other.
pub open spec fn calls_step(s: StreamView, calls: Seq<JsonView>) -> Progress
    decreases calls.len(),
{
    if calls.len() == 0 {
        still(s)
    } else {
        let before = calls_step(s, calls.drop_last());
        chain(before, call_step(before.state, calls.last()))
    }
}

/// The tool calls are complete: the message is closed, and each of them.
pub open spec fn finish_step(s: StreamView) -> Progress {
    let closed = closing(s);
    chain(
        closed,
        Progress {
            state: StreamView {
                completed: closed.state.active,
                active: Seq::empty(),
                ..closed.state
            },
            events: all_done_events(closed.state.active),
        },
    )
}

/// The state with the usage that a chunk reports, if it reports any.
pub open spec fn with_usage(s: StreamView, chunk: JsonView) -> StreamView {
    match chunk.get("usage"@) {
        Some(usage) => StreamView {
            total_input: usage.count_at("prompt_tokens"@),
            total_output: usage.count_at("completion_tokens"@),
            ..s
        },
        None => s,
    }
}

/// What the first choice of a chunk does.
pub open spec fn choice_step(s: StreamView, choice: JsonView) -> Progress {
    let delta = choice.get_or("delta"@, empty_object());
    let told = words_step(s, delta);
    let called = match delta.array_at("tool_calls"@) {
        Some(calls) => chain(told, calls_step(told.state, calls)),
        None => told,
    };
    if choice.str_at("finish_reason"@) == Some("tool_calls"@) {
        chain(called, finish_step(called.state))
    } else {
        called
    }
}

/// What a chunk does: it opens the response, and its first choice, if it has one, adds to it.
pub open spec fn chunk_step(s: StreamView, chunk: JsonView) -> Progress {
    let opened = opening(s);
    let done = match chunk.array_at("choices"@) {
        Some(choices) if choices.len() > 0 => chain(opened, choice_step(opened.state, choices[0])),
        _ => opened,
    };
    Progress { state: with_usage(done.state, chunk), events: done.events }
}

// ── What the end of the stream does ────────────────────────────────────────

/// Whether a call with this identifier is among the calls.
pub open spec fn known(calls: Seq<CallView>, id: Seq<char>) -> bool {
    exists|i: int| 0 <= i < calls.len() && (#[trigger] calls[i]).id == id
}

/// The calls that are not known to be complete.
pub open spec fn unfinished(active: Seq<CallView>, completed: Seq<CallView>) -> Seq<CallView>
    decreases active.len(),
{
    if active.len() == 0 {
        Seq::empty()
    } else if known(completed, active.last().id) {
        unfinished(active.drop_last(), completed)
    } else {
        unfinished(active.drop_last(), completed).push(active.last())
    }
}

/// The items of the whole output: the message, if it has text, and the tool calls.
pub open spec fn output_items(s: StreamView) -> Seq<JsonView> {
    let calls = (s.completed + unfinished(s.active, s.completed)).map_values(
        |c: CallView| done_item(c),
    );
    if s.full_text.len() == 0 {
        calls
    } else {
        seq![full_message(s)] + calls
    }
}

/// The sum of two numbers of tokens, modulo 2^64.
pub open spec fn token_sum(a: u64, b: u64) -> int {
    if a + b > u64::MAX {
        a + b - u64::MAX - 1
    } else {
        a + b
    }
}

/// The response as it stands at the end of the stream.
pub open spec fn final_response(s: StreamView) -> JsonView {
    completed_response(
        s.resp_id,
        s.created,
        s.model,
        output_items(s),
        token_usage(
            JsonView::Int(s.total_input as int),
            JsonView::Int(s.total_output as int),
            JsonView::Int(token_sum(s.total_input, s.total_output)),
        ),
    )
}

/// What the end of the stream does: the message is closed, the tool calls that are not known
/// to be complete are completed, and the whole response is sent.
pub open spec fn end_step(s: StreamView) -> Progress {
    let closed = closing(s);
    let t = closed.state;
    chain(
        closed,
        Progress {
            state: StreamView { ended: true, ..t },
            events: all_done_events(unfinished(t.active, t.completed)).push(
                response_event("response.completed"@, final_response(t)),
            ),
        },
    )
}

/// The line that ends a stream.
pub open spec fn done_line() -> Seq<char> {
    "data: [DONE]\n\n"@
}

// ── What a line does ───────────────────────────────────────────────────────

/// The data of a line of the stream.
pub open spec fn line_data(line: Seq<char>) -> Option<Seq<char>> {
    match after_prefix(line, "data: "@) {
        Some(rest) => Some(trimmed(rest)),
        None => None,
    }
}

/// Whether a line announces the end of the stream.
pub open spec fn is_done(line: Seq<char>) -> bool {
    line_data(line) == Some("[DONE]"@)
}

/// The chunk that a line carries.
pub open spec fn line_chunk(line: Seq<char>) -> Option<JsonView> {
    match line_data(line) {
        Some(data) if !is_done(line) => json_parse(encode_utf8(data)),
        _ => None,
    }
}

/// What a line of the stream does. A response ends once: a further announcement of the end does
/// nothing.
pub open spec fn line_step(s: StreamView, line: Seq<char>) -> Progress {
    if is_done(line) {
        if s.ended {
            still(s)
        } else {
            end_step(s)
        }
    } else {
        match line_chunk(line) {
            Some(chunk) => chunk_step(s, chunk),
            None => still(s),
        }
    }
}

/// What a line of the stream gives the client: the text of its events, if there are any, and
/// the line that ends the stream, if it is at its end.
pub open spec fn line_output(s: StreamView, line: Seq<char>) -> Option<Seq<char>> {
    let events = line_step(s, line).events;
    if is_done(line) {
        if s.ended {
            None
        } else {
            Some(events_text(events) + done_line())
        }
    } else if events.len() > 0 {
        Some(events_text(events))
    } else {
        None
    }
}

// ── The conversion ─────────────────────────────────────────────────────────

impl StreamTransformState {
    /// The state of a stream of which nothing has arrived. The reasoning effort plays no part.
    pub fn new(model: &str, reasoning_effort: Option<&str>) -> (r: Self)
        ensures
            is_id("msg"@, r@.msg_id),
            is_id("resp"@, r@.resp_id),
            exists|millis: u64| r.created == #[trigger] seconds_in(millis),
            r@ == fresh(model@, r@.msg_id, r@.resp_id, r@.created),
    {
        let _ = reasoning_effort;
        let state = StreamTransformState {
            msg_id: make_id("msg"),
            resp_id: make_id("resp"),
            model: model.to_owned(),
            created: unix_seconds(),
            full_text: String::new(),
            total_input: 0,
            total_output: 0,
            msg_closed: false,
            output_index: 0,
            active_tool_calls: Vec::new(),
            completed_tool_calls: Vec::new(),
            headers_emitted: false,
            ended: false,
        };
        assert(state@.active =~= Seq::empty());
        assert(state@.completed =~= Seq::empty());
        state
    }
}

/// Converts one line of a Chat Completions stream. What comes back is the text of events of
/// the Responses API, if the line gives rise to any.
pub fn transform_chat_sse_chunk(line: &str, state: &mut StreamTransformState) -> (r: Option<
    String,
>)
    ensures
        final(state)@ == line_step(old(state)@, line@).state,
        match r {
            Some(text) => line_output(old(state)@, line@) == Some(text@),
            None => line_output(old(state)@, line@) is None,
        },
{
    let data = match strip_prefix(line, "data: ") {
        Some(rest) => trim(rest),
        None => {
            return None;
        },
    };
    if str_eq(data, "[DONE]") {
        return flush_stream_completion(state);
    }
    match Json::parse(data.as_bytes()) {
        Some(chunk) => transform_sse_chunk(&chunk, state),
        None => None,
    }
}

/// Converts one chunk of a Chat Completions stream.
pub fn transform_sse_chunk(chunk: &Json, state: &mut StreamTransformState) -> (r: Option<String>)
    ensures
        final(state)@ == chunk_step(old(state)@, chunk@).state,
        match r {
            Some(text) => {
                &&& chunk_step(old(state)@, chunk@).events.len() > 0
                &&& text@ == events_text(chunk_step(old(state)@, chunk@).events)
            },
            None => chunk_step(old(state)@, chunk@).events.len() == 0,
        },
{
    let mut out = String::new();
    let ghost opened = opening(state@);
    assert(events_text(Seq::empty()) =~= Seq::empty());
    if !state.headers_emitted {
        emit_stream_headers(state, &mut out);
        state.headers_emitted = true;
    }
    assert(state@ == opened.state);
    assert(out@ =~= events_text(opened.events));
    match chunk.array_at("choices") {
        Some(choices) => {
            if choices.len() > 0 {
                proof {
                    lemma_events_concat(
                        opened.events,
                        choice_step(opened.state, choices@[0]@).events,
                    );
                }
                convert_choice(&choices[0], state, &mut out);
            }
        },
        None => {},
    }
    if let Some(usage) = chunk.get("usage") {
        state.total_input = usage.count_at("prompt_tokens");
        state.total_output = usage.count_at("completion_tokens");
    }
    proof {
        lemma_events_empty(chunk_step(old(state)@, chunk@).events);
    }
    if out.as_str().is_empty() {
        None
    } else {
        Some(out)
    }
}

/// Converts the first choice of a chunk.
fn convert_choice(choice: &Json, state: &mut StreamTransformState, out: &mut String)
    ensures
        final(state)@ == choice_step(old(state)@, choice@).state,
        final(out)@ == old(out)@ + events_text(choice_step(old(state)@, choice@).events),
{
    let ghost s0 = state@;
    let ghost o0 = out@;
    let none = Json::object();
    let delta = match choice.get("delta") {
        Some(d) => d,
        None => &none,
    };
    let ghost told = words_step(s0, delta@);
    let ghost called = match delta@.array_at("tool_calls"@) {
        Some(calls) => chain(told, calls_step(told.state, calls)),
        None => told,
    };
    convert_words(delta, state, out);
    if let Some(calls) = delta.array_at("tool_calls") {
        convert_calls(calls, state, out);
        proof {
            lemma_events_concat(told.events, calls_step(told.state, json_items(calls@)).events);
        }
    }
    assert(state@ == called.state);
    assert(out@ =~= o0 + events_text(called.events));
    let finished = match choice.str_at("finish_reason") {
        Some(reason) => str_eq(reason, "tool_calls"),
        None => false,
    };
    if finished {
        finish_calls(state, out);
        proof {
            lemma_events_concat(called.events, finish_step(called.state).events);
            assert(out@ =~= o0 + events_text(choice_step(s0, choice@).events));
        }
    }
}

/// Converts pieces of the reasoning and of the text.
fn convert_words(delta: &Json, state: &mut StreamTransformState, out: &mut String)
    ensures
        final(state)@ == words_step(old(state)@, delta@).state,
        final(out)@ == old(out)@ + events_text(words_step(old(state)@, delta@).events),
{
    let ghost s0 = state@;
    let ghost o0 = out@;
    assert(events_text(Seq::empty()) =~= Seq::empty());
    let reasoning = delta.text_at("reasoning_content");
    if !reasoning.is_empty() {
        let event = delta_object("response.reasoning_text.delta", state.msg_id.as_str(), reasoning);
        push_event(out, &event);
    }
    assert(out@ =~= o0 + events_text(reasoning_step(s0, delta@).events));
    let text = delta.text_at("content");
    if !text.is_empty() {
        state.full_text.append(text);
        let event = delta_object("response.output_text.delta", state.msg_id.as_str(), text);
        push_event(out, &event);
    }
    proof {
        let reasoned = reasoning_step(s0, delta@);
        lemma_events_concat(reasoned.events, text_step(reasoned.state, delta@).events);
        assert(out@ =~= o0 + events_text(words_step(s0, delta@).events));
    }
}

/// Converts pieces of tool calls.
fn convert_calls(calls: &Vec<Json>, state: &mut StreamTransformState, out: &mut String)
    ensures
        final(state)@ == calls_step(old(state)@, json_items(calls@)).state,
        final(out)@ == old(out)@ + events_text(calls_step(old(state)@, json_items(calls@)).events),
{
    let ghost s0 = state@;
    let ghost o0 = out@;
    let ghost all = json_items(calls@);
    let mut i: usize = 0;
    assert(all.take(0) =~= Seq::empty());
    assert(events_text(Seq::empty()) =~= Seq::empty());
    assert(out@ =~= o0 + events_text(calls_step(s0, all.take(0)).events));
    while i < calls.len()
        invariant
            all == json_items(calls@),
            i <= calls@.len(),
            state@ == calls_step(s0, all.take(i as int)).state,
            out@ == o0 + events_text(calls_step(s0, all.take(i as int)).events),
        decreases calls@.len() - i,
    {
        let ghost before = calls_step(s0, all.take(i as int));
        let ghost step = call_step(before.state, calls@[i as int]@);
        convert_call(&calls[i], state, out);
        proof {
            assert(all.take(i + 1).drop_last() =~= all.take(i as int));
            assert(all.take(i + 1).last() == calls@[i as int]@);
            lemma_events_concat(before.events, step.events);
            assert(out@ =~= o0 + events_text(chain(before, step).events));
        }
        i += 1;
    }
    assert(all.take(calls@.len() as int) =~= all);
}

/// What characterises [`call_at`].
pub proof fn lemma_call_at(calls: Seq<CallView>, index: usize, k: int)
    requires
        0 <= k <= calls.len(),
        forall|j: int| 0 <= j < k ==> (#[trigger] calls[j]).index != index,
        k < calls.len() ==> calls[k].index == index,
    ensures
        call_at(calls, index) == k,
    decreases calls.len(),
{
    if calls.len() > 0 && calls[0].index != index {
        assert forall|j: int| 0 <= j < k - 1 implies (#[trigger] calls.skip(1)[j]).index
            != index by {
            assert(calls.skip(1)[j] == calls[j + 1]);
        }
        lemma_call_at(calls.skip(1), index, k - 1);
    }
}

/// The place of the first call with this index.
fn find_call(calls: &Vec<ToolCallState>, index: usize) -> (r: usize)
    ensures
        r == call_at(calls_view(calls@), index),
        r <= calls@.len(),
{
    let mut i: usize = 0;
    while i < calls.len() && calls[i].index != index
        invariant
            i <= calls@.len(),
            forall|j: int| 0 <= j < i ==> (#[trigger] calls@[j]).index != index,
        decreases calls@.len() - i,
    {
        i += 1;
    }
    proof {
        let seen = calls_view(calls@);
        assert forall|j: int| 0 <= j < i implies (#[trigger] seen[j]).index != index by {
            assert(seen[j] == calls@[j]@);
        }
        lemma_call_at(seen, index, i as int);
    }
    i
}

/// Converts a piece of a tool call.
fn convert_call(call: &Json, state: &mut StreamTransformState, out: &mut String)
    ensures
        final(state)@ == call_step(old(state)@, call@).state,
        final(out)@ == old(out)@ + events_text(call_step(old(state)@, call@).events),
{
    let ghost s0 = state@;
    let ghost o0 = out@;
    let none = Json::object();
    let function = match call.get("function") {
        Some(f) => f,
        None => &none,
    };
    let index: usize = call.count_at("index") as usize;
    let place: usize = find_call(&state.active_tool_calls, index);
    if place < state.active_tool_calls.len() {
        let piece = function.text_at("arguments");
        let event = arguments_object(
            "response.function_call_arguments.delta",
            &state.active_tool_calls[place],
            "delta",
            piece,
        );
        push_event(out, &event);
        let ghost before = state.active_tool_calls@;
        state.active_tool_calls[place].arguments.append(piece);
        assert(calls_view(state.active_tool_calls@) =~= calls_view(before).update(
            place as int,
            call_step(s0, call@).state.active[place as int],
        ));
    } else {
        let ghost closed = closing(s0);
        close_msg_item(state, out);
        let new_call = ToolCallState {
            id: call.text_at("id").to_owned(),
            index,
            name: function.text_at("name").to_owned(),
            arguments: function.text_at("arguments").to_owned(),
            output_index: state.output_index.wrapping_add(index),
        };
        let event = item_object(
            "response.output_item.added",
            new_call.output_index as u64,
            call_object(&new_call, "", "in_progress"),
        );
        push_event(out, &event);
        let ghost before = state.active_tool_calls@;
        state.active_tool_calls.push(new_call);
        proof {
            reveal_strlit("");
            assert(""@ =~= Seq::empty());
            assert(calls_view(state.active_tool_calls@) =~= calls_view(before).push(new_call@));
            assert(new_call@ == opened_call(closed.state, call@));
            lemma_events_concat(closed.events, seq![event@]);
            assert(out@ =~= o0 + events_text(call_step(s0, call@).events));
        }
    }
}

/// Closes the message and completes the tool calls.
fn finish_calls(state: &mut StreamTransformState, out: &mut String)
    ensures
        final(state)@ == finish_step(old(state)@).state,
        final(out)@ == old(out)@ + events_text(finish_step(old(state)@).events),
{
    let ghost o0 = out@;
    let ghost closed = closing(state@);
    close_msg_item(state, out);
    complete_calls(&state.active_tool_calls, out);
    proof {
        lemma_events_concat(closed.events, all_done_events(closed.state.active));
        assert(out@ =~= o0 + events_text(finish_step(old(state)@).events));
    }
    let mut done: Vec<ToolCallState> = Vec::new();
    std::mem::swap(&mut done, &mut state.active_tool_calls);
    state.completed_tool_calls = done;
    assert(calls_view(state.active_tool_calls@) =~= Seq::empty());
}

/// Sends the events that complete the tool calls.
fn complete_calls(calls: &Vec<ToolCallState>, out: &mut String)
    ensures
        final(out)@ == old(out)@ + events_text(all_done_events(calls_view(calls@))),
{
    let ghost o0 = out@;
    let ghost all = calls_view(calls@);
    let mut i: usize = 0;
    assert(all.take(0) =~= Seq::empty());
    assert(events_text(Seq::empty()) =~= Seq::empty());
    assert(out@ =~= o0 + events_text(all_done_events(all.take(0))));
    while i < calls.len()
        invariant
            all == calls_view(calls@),
            i <= calls@.len(),
            out@ == o0 + events_text(all_done_events(all.take(i as int))),
        decreases calls@.len() - i,
    {
        complete_call(&calls[i], out);
        proof {
            assert(all.take(i + 1).drop_last() =~= all.take(i as int));
            lemma_events_concat(all_done_events(all.take(i as int)), done_events(all[i as int]));
            assert(out@ =~= o0 + events_text(all_done_events(all.take(i + 1))));
        }
        i += 1;
    }
    assert(all.take(calls@.len() as int) =~= all);
}

/// Sends the events that complete a tool call.
fn complete_call(call: &ToolCallState, out: &mut String)
    ensures
        final(out)@ == old(out)@ + events_text(done_events(call@)),
{
    let ghost o0 = out@;
    let first = arguments_object(
        "response.function_call_arguments.done",
        call,
        "arguments",
        call.arguments.as_str(),
    );
    push_event(out, &first);
    let second = item_object(
        "response.output_item.done",
        call.output_index as u64,
        call_object(call, call.arguments.as_str(), "completed"),
    );
    push_event(out, &second);
    proof {
        lemma_events_concat(seq![first@], seq![second@]);
        assert(seq![first@] + seq![second@] =~= done_events(call@));
        assert(out@ =~= o0 + events_text(done_events(call@)));
    }
}

/// Sends the events that open the response and its message.
fn emit_stream_headers(state: &StreamTransformState, out: &mut String)
    ensures
        final(out)@ == old(out)@ + events_text(header_events(state@)),
{
    let ghost o0 = out@;
    let response = Json::object().with("id", Json::string(state.resp_id.as_str())).with(
        "object",
        Json::string("response"),
    ).with("created_at", Json::number(state.created)).with(
        "status",
        Json::string("in_progress"),
    ).with("model", Json::string(state.model.as_str())).with("output", Json::array()).with(
        "usage",
        Json::Null,
    );
    let nothing: Vec<Json> = Vec::new();
    assert(json_items(nothing@) =~= Seq::empty());
    let e1 = Json::object().with("type", Json::string("response.created")).with(
        "response",
        response.clone(),
    );
    let e2 = Json::object().with("type", Json::string("response.in_progress")).with(
        "response",
        response,
    );
    let e3 = item_object(
        "response.output_item.added",
        0,
        assistant_item(state.msg_id.as_str(), "in_progress", nothing),
    );
    let e4 = part_object("response.content_part.added", "");
    push_event(out, &e1);
    push_event(out, &e2);
    push_event(out, &e3);
    push_event(out, &e4);
    proof {
        reveal_strlit("");
        assert(""@ =~= Seq::empty());
        lemma_events_concat(seq![e1@], seq![e2@]);
        lemma_events_concat(seq![e1@] + seq![e2@], seq![e3@]);
        lemma_events_concat(seq![e1@] + seq![e2@] + seq![e3@], seq![e4@]);
        assert(seq![e1@] + seq![e2@] + seq![e3@] + seq![e4@] =~= header_events(state@));
        assert(out@ =~= o0 + events_text(header_events(state@)));
    }
}

/// Closes the message, unless it is closed.
fn close_msg_item(state: &mut StreamTransformState, out: &mut String)
    ensures
        final(state)@ == closing(old(state)@).state,
        final(out)@ == old(out)@ + events_text(closing(old(state)@).events),
{
    let ghost o0 = out@;
    if state.msg_closed {
        assert(events_text(Seq::empty()) =~= Seq::empty());
        assert(out@ =~= o0 + events_text(closing(old(state)@).events));
        return;
    }
    state.msg_closed = true;
    let first = part_object("response.content_part.done", state.full_text.as_str());
    push_event(out, &first);
    let second = item_object("response.output_item.done", 0, whole_message(state));
    push_event(out, &second);
    state.output_index = 1;
    proof {
        lemma_events_concat(seq![first@], seq![second@]);
        assert(seq![first@] + seq![second@] =~= close_events(old(state)@));
        assert(out@ =~= o0 + events_text(close_events(old(state)@)));
    }
}

/// Ends the stream, unless it has ended: the text of the last events, then the line that ends
/// it.
pub fn flush_stream_completion(state: &mut StreamTransformState) -> (r: Option<String>)
    ensures
        match r {
            Some(text) => {
                &&& !old(state)@.ended
                &&& final(state)@ == end_step(old(state)@).state
                &&& text@ == events_text(end_step(old(state)@).events) + done_line()
            },
            None => old(state)@.ended && final(state)@ == old(state)@,
        },
{
    if state.ended {
        return None;
    }
    let mut out = String::new();
    let ghost closed = closing(state@);
    close_msg_item(state, &mut out);
    let ghost t = state@;
    let rest = unfinished_calls(&state.active_tool_calls, &state.completed_tool_calls);
    complete_calls(&rest, &mut out);
    let items = collect_items(state, &rest);
    let total: u64 = state.total_input.wrapping_add(state.total_output);
    let usage = usage_object(
        Json::number(state.total_input),
        Json::number(state.total_output),
        Json::number(total),
    );
    let response = finished_response(
        state.resp_id.as_str(),
        state.created,
        state.model.as_str(),
        items,
        usage,
    );
    let event = Json::object().with("type", Json::string("response.completed")).with(
        "response",
        response,
    );
    push_event(&mut out, &event);
    proof {
        let pending = all_done_events(unfinished(t.active, t.completed));
        lemma_events_concat(pending, seq![event@]);
        assert(pending + seq![event@] =~= pending.push(event@));
        lemma_events_concat(closed.events, pending.push(event@));
        assert(out@ =~= events_text(end_step(old(state)@).events));
    }
    state.ended = true;
    out.append("data: [DONE]\n\n");
    Some(out)
}

/// Whether a call with this identifier is among the calls.
fn is_known(calls: &Vec<ToolCallState>, id: &String) -> (r: bool)
    ensures
        r == known(calls_view(calls@), id@),
{
    let ghost seen = calls_view(calls@);
    let mut i: usize = 0;
    while i < calls.len()
        invariant
            seen == calls_view(calls@),
            i <= calls@.len(),
            forall|j: int| 0 <= j < i ==> (#[trigger] seen[j]).id != id@,
        decreases calls@.len() - i,
    {
        assert(seen[i as int].id == calls@[i as int].id@);
        if calls[i].id == *id {
            return true;
        }
        i += 1;
    }
    false
}

/// The calls that are not known to be complete.
fn unfinished_calls(active: &Vec<ToolCallState>, completed: &Vec<ToolCallState>) -> (r: Vec<
    ToolCallState,
>)
    ensures
        calls_view(r@) == unfinished(calls_view(active@), calls_view(completed@)),
{
    let ghost all = calls_view(active@);
    let ghost done = calls_view(completed@);
    let mut rest: Vec<ToolCallState> = Vec::new();
    let mut i: usize = 0;
    assert(all.take(0) =~= Seq::empty());
    assert(calls_view(rest@) =~= Seq::empty());
    while i < active.len()
        invariant
            all == calls_view(active@),
            done == calls_view(completed@),
            i <= active@.len(),
            calls_view(rest@) == unfinished(all.take(i as int), done),
        decreases active@.len() - i,
    {
        assert(all.take(i + 1).drop_last() =~= all.take(i as int));
        if !is_known(completed, &active[i].id) {
            let ghost before = rest@;
            let call = active[i].clone();
            rest.push(call);
            assert(calls_view(rest@) =~= calls_view(before).push(call@));
        }
        i += 1;
    }
    assert(all.take(active@.len() as int) =~= all);
    rest
}

/// The items of the whole output, given the calls that were not known to be complete.
fn collect_items(state: &StreamTransformState, rest: &Vec<ToolCallState>) -> (r: Vec<Json>)
    requires
        calls_view(rest@) == unfinished(state@.active, state@.completed),
    ensures
        json_items(r@) == output_items(state@),
{
    let mut items: Vec<Json> = Vec::new();
    let ghost calls = (state@.completed + calls_view(rest@)).map_values(|c: CallView| done_item(c));
    if !state.full_text.as_str().is_empty() {
        items.push(whole_message(state));
    }
    let ghost first = json_items(items@);
    assert(first =~= if state@.full_text.len() == 0 {
        Seq::empty()
    } else {
        seq![full_message(state@)]
    });
    push_done_items(&state.completed_tool_calls, &mut items);
    push_done_items(rest, &mut items);
    assert(json_items(items@) =~= first + calls);
    assert(Seq::<JsonView>::empty() + calls =~= calls);
    items
}

/// Appends the items of tool calls.
fn push_done_items(calls: &Vec<ToolCallState>, items: &mut Vec<Json>)
    ensures
        json_items(final(items)@) == json_items(old(items)@) + calls_view(calls@).map_values(
            |c: CallView| done_item(c),
        ),
{
    let ghost first = json_items(items@);
    let ghost all = calls_view(calls@).map_values(|c: CallView| done_item(c));
    let mut i: usize = 0;
    assert(first + all.take(0) =~= first);
    while i < calls.len()
        invariant
            all == calls_view(calls@).map_values(|c: CallView| done_item(c)),
            i <= calls@.len(),
            json_items(items@) == first + all.take(i as int),
        decreases calls@.len() - i,
    {
        let call = &calls[i];
        let item = call_object(call, call.arguments.as_str(), "completed");
        let ghost before = items@;
        items.push(item);
        assert(json_items(items@) =~= json_items(before).push(item@));
        assert(first + all.take(i + 1) =~= (first + all.take(i as int)).push(all[i as int]));
        i += 1;
    }
    assert(all.take(calls@.len() as int) =~= all);
}

impl Clone for ToolCallState {
    fn clone(&self) -> (r: Self)
        ensures
            r@ == self@,
    {
        ToolCallState {
            id: self.id.clone(),
            index: self.index,
            name: self.name.clone(),
            arguments: self.arguments.clone(),
            output_index: self.output_index,
        }
    }
}

/// The message with all its text.
fn whole_message(state: &StreamTransformState) -> (r: Json)
    ensures
        r@ == full_message(state@),
{
    let part = output_text(state.full_text.as_str());
    let parts: Vec<Json> = vec![part];
    assert(json_items(parts@) =~= seq![part@]);
    assistant_item(state.msg_id.as_str(), "completed", parts)
}

/// An event with a piece of the text or of the reasoning.
fn delta_object(kind: &str, item_id: &str, delta: &str) -> (r: Json)
    ensures
        r@ == delta_event(kind@, item_id@, delta@),
{
    Json::object().with("type", Json::string(kind)).with("item_id", Json::string(item_id)).with(
        "output_index",
        Json::number(0),
    ).with("content_index", Json::number(0)).with("delta", Json::string(delta))
}

/// An event about the text of the message.
fn part_object(kind: &str, text: &str) -> (r: Json)
    ensures
        r@ == part_event(kind@, text@),
{
    Json::object().with("type", Json::string(kind)).with("output_index", Json::number(0)).with(
        "content_index",
        Json::number(0),
    ).with("part", output_text(text))
}

/// An event about an output item.
fn item_object(kind: &str, output_index: u64, item: Json) -> (r: Json)
    ensures
        r@ == item_event(kind@, output_index as int, item@),
{
    Json::object().with("type", Json::string(kind)).with(
        "output_index",
        Json::number(output_index),
    ).with("item", item)
}

/// An event about the arguments of a tool call.
fn arguments_object(kind: &str, call: &ToolCallState, key: &str, text: &str) -> (r: Json)
    ensures
        r@ == arguments_event(kind@, call@, key@, text@),
{
    Json::object().with("type", Json::string(kind)).with(
        "item_id",
        Json::string(call.id.as_str()),
    ).with("output_index", Json::number(call.output_index as u64)).with(key, Json::string(text))
}

/// The output item for a tool call.
fn call_object(call: &ToolCallState, arguments: &str, status: &str) -> (r: Json)
    ensures
        r@ == call_item(call@, arguments@, status@),
{
    Json::object().with("id", Json::string(call.id.as_str())).with(
        "type",
        Json::string("function_call"),
    ).with("call_id", Json::string(call.id.as_str())).with(
        "name",
        Json::string(call.name.as_str()),
    ).with("arguments", Json::string(arguments)).with("status", Json::string(status))
}

}
