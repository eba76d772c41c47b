//! What holds of every stream that is converted.

use crate::json::{empty_object, JsonView};
use crate::transform::stream::{
    all_done_events, arguments_event, call_at, call_index, call_step, calls_step, chain,
    choice_step, chunk_step, close_events, closing, delta_event, done_events, end_step,
    finish_step, fresh, header_events, is_done, item_event, line_chunk, line_output, line_step,
    opened_call, opening, part_event, reasoning_step, response_event, still, text_step,
    unfinished, words_step, wrapping_sum, CallView, Progress, StreamView,
};
use vstd::prelude::*;

verus! {

broadcast use vstd::string::group_string_axioms;

// ── How often events of a kind occur ───────────────────────────────────────

/// The kind of an event.
pub open spec fn kind_of(event: JsonView) -> Option<Seq<char>> {
    event.str_at("type"@)
}

/// How many of the events are of a kind.
pub open spec fn count(events: Seq<JsonView>, kind: Seq<char>) -> int
    decreases events.len(),
{
    if events.len() == 0 {
        0
    } else {
        count(events.drop_last(), kind) + if kind_of(events.last()) == Some(kind) {
            1int
        } else {
            0
        }
    }
}

/// The events of two lists are those of the first and those of the second.
pub proof fn lemma_count_concat(a: Seq<JsonView>, b: Seq<JsonView>, kind: Seq<char>)
    ensures
        count(a + b, kind) == count(a, kind) + count(b, kind),
    decreases b.len(),
{
    if b.len() == 0 {
        assert(a + b =~= a);
    } else {
        assert((a + b).drop_last() =~= a + b.drop_last());
        lemma_count_concat(a, b.drop_last(), kind);
    }
}

/// The kind of the event that opens a response.
pub open spec fn created() -> Seq<char> {
    "response.created"@
}

/// The kind of the event that tells that a response is being made.
pub open spec fn in_progress() -> Seq<char> {
    "response.in_progress"@
}

/// The kind of the event that opens the text of the message.
pub open spec fn part_added() -> Seq<char> {
    "response.content_part.added"@
}

/// The kind of the event that closes the text of the message.
pub open spec fn part_done() -> Seq<char> {
    "response.content_part.done"@
}

/// The kind of the event that ends a response.
pub open spec fn completed() -> Seq<char> {
    "response.completed"@
}

/// A kind of event that neither opens nor ends a response or its message.
pub open spec fn plain(kind: Seq<char>) -> bool {
    &&& kind != created()
    &&& kind != in_progress()
    &&& kind != part_added()
    &&& kind != part_done()
    &&& kind != completed()
}

/// The events are all of such kinds.
pub open spec fn all_plain(events: Seq<JsonView>) -> bool {
    forall|i: int|
        0 <= i < events.len() ==> {
            let kind = kind_of(#[trigger] events[i]);
            kind is Some && plain(kind->0)
        }
}

/// The kinds of events are told apart.
proof fn lemma_kinds()
    ensures
        created() != in_progress(),
        created() != part_added(),
        created() != part_done(),
        created() != completed(),
        in_progress() != part_added(),
        in_progress() != part_done(),
        in_progress() != completed(),
        part_added() != part_done(),
        part_added() != completed(),
        part_done() != completed(),
        plain("response.output_item.added"@),
        plain("response.output_item.done"@),
        plain("response.reasoning_text.delta"@),
        plain("response.output_text.delta"@),
        plain("response.function_call_arguments.delta"@),
        plain("response.function_call_arguments.done"@),
{
    reveal_strlit("response.created");
    reveal_strlit("response.content_part.done");
    reveal_strlit("response.completed");
    reveal_strlit("response.in_progress");
    reveal_strlit("response.output_item.added");
    reveal_strlit("response.content_part.added");
    reveal_strlit("response.output_item.done");
    reveal_strlit("response.reasoning_text.delta");
    reveal_strlit("response.output_text.delta");
    reveal_strlit("response.function_call_arguments.delta");
    reveal_strlit("response.function_call_arguments.done");
    assert("response.created"@.len() == 16);
    assert("response.content_part.done"@.len() == 26);
    assert("response.completed"@.len() == 18);
    assert("response.in_progress"@.len() == 20);
    assert("response.output_item.added"@.len() == 26);
    assert("response.content_part.added"@.len() == 27);
    assert("response.output_item.done"@.len() == 25);
    assert("response.reasoning_text.delta"@.len() == 29);
    assert("response.output_text.delta"@.len() == 26);
    assert("response.function_call_arguments.delta"@.len() == 38);
    assert("response.function_call_arguments.done"@.len() == 37);
    assert(part_done()[9] == 'c');
    assert("response.output_item.added"@[9] == 'o');
    assert("response.output_text.delta"@[9] == 'o');
}

/// The names of the members of events are told apart from that of the kind.
proof fn lemma_members()
    ensures
        "response"@ != "type"@,
        "output_index"@ != "type"@,
        "item"@ != "type"@,
        "content_index"@ != "type"@,
        "part"@ != "type"@,
        "item_id"@ != "type"@,
        "delta"@ != "type"@,
        "arguments"@ != "type"@,
{
    reveal_strlit("type");
    reveal_strlit("response");
    reveal_strlit("output_index");
    reveal_strlit("item");
    reveal_strlit("content_index");
    reveal_strlit("part");
    reveal_strlit("item_id");
    reveal_strlit("delta");
    reveal_strlit("arguments");
    assert("type"@[0] == 't');
    assert("item"@[0] == 'i');
    assert("part"@[0] == 'p');
}

/// The kind of an event is the one that it was made with.
proof fn lemma_kind_of()
    ensures
        forall|kind: Seq<char>, value: JsonView|
            #![trigger response_event(kind, value)]
            kind_of(response_event(kind, value)) == Some(kind),
        forall|kind: Seq<char>, n: int, value: JsonView|
            #![trigger item_event(kind, n, value)]
            kind_of(item_event(kind, n, value)) == Some(kind),
        forall|kind: Seq<char>, text: Seq<char>|
            #![trigger part_event(kind, text)]
            kind_of(part_event(kind, text)) == Some(kind),
        forall|kind: Seq<char>, id: Seq<char>, text: Seq<char>|
            #![trigger delta_event(kind, id, text)]
            kind_of(delta_event(kind, id, text)) == Some(kind),
        forall|kind: Seq<char>, call: CallView, text: Seq<char>|
            #![trigger arguments_event(kind, call, "delta"@, text)]
            kind_of(arguments_event(kind, call, "delta"@, text)) == Some(kind),
        forall|kind: Seq<char>, call: CallView, text: Seq<char>|
            #![trigger arguments_event(kind, call, "arguments"@, text)]
            kind_of(arguments_event(kind, call, "arguments"@, text)) == Some(kind),
{
    lemma_members();
}

/// Such events open, close and end nothing.
proof fn lemma_plain_count(events: Seq<JsonView>)
    requires
        all_plain(events),
    ensures
        count(events, created()) == 0,
        count(events, in_progress()) == 0,
        count(events, part_added()) == 0,
        count(events, part_done()) == 0,
        count(events, completed()) == 0,
    decreases events.len(),
{
    if events.len() > 0 {
        assert(all_plain(events.drop_last())) by {
            assert forall|i: int| 0 <= i < events.len() - 1 implies {
                let kind = kind_of(#[trigger] events.drop_last()[i]);
                kind is Some && plain(kind->0)
            } by {
                assert(events.drop_last()[i] == events[i]);
            }
        }
        lemma_plain_count(events.drop_last());
        assert(events.last() == events[events.len() - 1]);
    }
}

/// What the events on the way to a state open, close and end.
pub open spec fn tallied(
    p: Progress,
    s: StreamView,
    opens: bool,
    ends: bool,
) -> bool {
    &&& count(p.events, created()) == if opens {
        1int
    } else {
        0
    }
    &&& count(p.events, in_progress()) == if opens {
        1int
    } else {
        0
    }
    &&& count(p.events, part_added()) == if opens {
        1int
    } else {
        0
    }
    &&& count(p.events, completed()) == if ends {
        1int
    } else {
        0
    }
    &&& count(p.events, part_done()) == if p.state.msg_closed && !s.msg_closed {
        1int
    } else {
        0
    }
    &&& s.msg_closed ==> p.state.msg_closed
    &&& p.state.headers_emitted == (s.headers_emitted || opens)
}

/// One step after another opens, closes and ends what both do.
proof fn lemma_tallied_chain(
    p: Progress,
    q: Progress,
    s: StreamView,
    opens: bool,
    ends: bool,
)
    requires
        tallied(p, s, opens, false),
        tallied(q, p.state, false, ends),
    ensures
        tallied(chain(p, q), s, opens, ends),
{
    lemma_count_concat(p.events, q.events, created());
    lemma_count_concat(p.events, q.events, in_progress());
    lemma_count_concat(p.events, q.events, part_added());
    lemma_count_concat(p.events, q.events, completed());
    lemma_count_concat(p.events, q.events, part_done());
}

/// A step with such events that does not close the message.
proof fn lemma_tallied_plain(p: Progress, s: StreamView)
    requires
        all_plain(p.events),
        p.state.msg_closed == s.msg_closed,
        p.state.headers_emitted == s.headers_emitted,
    ensures
        tallied(p, s, false, false),
{
    lemma_plain_count(p.events);
}

/// An event counts once for its own kind, and for no other.
proof fn lemma_count_one(event: JsonView, kind: Seq<char>)
    ensures
        count(seq![event], kind) == if kind_of(event) == Some(kind) {
            1int
        } else {
            0
        },
{
    assert(seq![event].drop_last() =~= Seq::empty());
    assert(count(Seq::empty(), kind) == 0);
}

/// Closing the message closes it once.
proof fn lemma_closing(s: StreamView)
    ensures
        tallied(closing(s), s, false, false),
        closing(s).state.msg_closed,
{
    if !s.msg_closed {
        lemma_kinds();
        lemma_kind_of();
        let events = close_events(s);
        assert(events =~= seq![events[0]] + seq![events[1]]);
        assert forall|kind: Seq<char>| #[trigger] count(events, kind) == count(
            seq![events[0]],
            kind,
        ) + count(seq![events[1]], kind) by {
            lemma_count_concat(seq![events[0]], seq![events[1]], kind);
        }
        assert forall|kind: Seq<char>, k: int|
            0 <= k < 2 implies #[trigger] count(seq![events[k]], kind) == if kind_of(events[k])
            == Some(kind) {
            1int
        } else {
            0
        } by {
            lemma_count_one(events[k], kind);
        }
    }
}

/// Opening the response opens it once, and its message.
proof fn lemma_opening(s: StreamView)
    ensures
        tallied(opening(s), s, !s.headers_emitted, false),
        opening(s).state.headers_emitted,
{
    if !s.headers_emitted {
        lemma_kinds();
        lemma_kind_of();
        let events = header_events(s);
        let first = seq![events[0]] + seq![events[1]];
        let second = seq![events[2]] + seq![events[3]];
        assert(events =~= first + second);
        assert forall|kind: Seq<char>| #[trigger] count(events, kind) == count(
            seq![events[0]],
            kind,
        ) + count(seq![events[1]], kind) + count(seq![events[2]], kind) + count(
            seq![events[3]],
            kind,
        ) by {
            lemma_count_concat(first, second, kind);
            lemma_count_concat(seq![events[0]], seq![events[1]], kind);
            lemma_count_concat(seq![events[2]], seq![events[3]], kind);
        }
        assert forall|kind: Seq<char>, k: int|
            0 <= k < 4 implies #[trigger] count(seq![events[k]], kind) == if kind_of(events[k])
            == Some(kind) {
            1int
        } else {
            0
        } by {
            lemma_count_one(events[k], kind);
        }
    }
}

/// Completing tool calls opens, closes and ends nothing else.
proof fn lemma_done_events(calls: Seq<CallView>)
    ensures
        all_plain(all_done_events(calls)),
    decreases calls.len(),
{
    if calls.len() > 0 {
        lemma_done_events(calls.drop_last());
        lemma_kinds();
        lemma_kind_of();
        let a = all_done_events(calls.drop_last());
        let b = done_events(calls.last());
        assert forall|i: int| 0 <= i < (a + b).len() implies {
            let kind = kind_of(#[trigger] (a + b)[i]);
            kind is Some && plain(kind->0)
        } by {
            if i < a.len() {
                assert((a + b)[i] == a[i]);
            } else {
                assert((a + b)[i] == b[i - a.len()]);
            }
        }
    }
}

/// A piece of a tool call closes the message at most.
proof fn lemma_call_step(s: StreamView, call: JsonView)
    ensures
        tallied(call_step(s, call), s, false, false),
{
    lemma_kinds();
    lemma_kind_of();
    let i = call_at(s.active, call_index(call));
    if i < s.active.len() {
        lemma_tallied_plain(call_step(s, call), s);
    } else {
        lemma_closing(s);
        let closed = closing(s);
        let whole = call_step(s, call);
        let opened = Progress {
            state: whole.state,
            events: whole.events.skip(closed.events.len() as int),
        };
        assert(opened.events.len() == 1);
        assert(closed.events + opened.events =~= whole.events);
        assert(opened.events[0] == whole.events[closed.events.len() as int]);
        lemma_tallied_plain(opened, closed.state);
        lemma_tallied_chain(closed, opened, s, false, false);
    }
}

/// Pieces of tool calls close the message at most.
proof fn lemma_calls_step(s: StreamView, calls: Seq<JsonView>)
    ensures
        tallied(calls_step(s, calls), s, false, false),
    decreases calls.len(),
{
    if calls.len() > 0 {
        lemma_calls_step(s, calls.drop_last());
        let before = calls_step(s, calls.drop_last());
        lemma_call_step(before.state, calls.last());
        lemma_tallied_chain(before, call_step(before.state, calls.last()), s, false, false);
    }
}

/// Completing the tool calls closes the message at most.
proof fn lemma_finish_step(s: StreamView)
    ensures
        tallied(finish_step(s), s, false, false),
{
    lemma_closing(s);
    let closed = closing(s);
    lemma_done_events(closed.state.active);
    let rest = Progress {
        state: finish_step(s).state,
        events: all_done_events(closed.state.active),
    };
    lemma_tallied_plain(rest, closed.state);
    lemma_tallied_chain(closed, rest, s, false, false);
}

/// Pieces of the reasoning and of the text open, close and end nothing.
proof fn lemma_words_step(s: StreamView, delta: JsonView)
    ensures
        tallied(words_step(s, delta), s, false, false),
{
    lemma_kinds();
    lemma_kind_of();
    let a = reasoning_step(s, delta);
    let b = text_step(a.state, delta);
    lemma_tallied_plain(a, s);
    lemma_tallied_plain(b, a.state);
    lemma_tallied_chain(a, b, s, false, false);
}

/// The first choice of a chunk closes the message at most.
proof fn lemma_choice_step(s: StreamView, choice: JsonView)
    ensures
        tallied(choice_step(s, choice), s, false, false),
{
    let delta = choice.get_or("delta"@, empty_object());
    let told = words_step(s, delta);
    lemma_words_step(s, delta);
    let called = match delta.array_at("tool_calls"@) {
        Some(calls) => chain(told, calls_step(told.state, calls)),
        None => told,
    };
    if let Some(calls) = delta.array_at("tool_calls"@) {
        lemma_calls_step(told.state, calls);
        lemma_tallied_chain(told, calls_step(told.state, calls), s, false, false);
    }
    lemma_finish_step(called.state);
    lemma_tallied_chain(called, finish_step(called.state), s, false, false);
}

/// A chunk opens the response and its message if they are not open, with each of the events for
/// that once; it closes the message at most once and only if it is open, and does not end the
/// response.
pub proof fn law_chunk_events(s: StreamView, chunk: JsonView)
    ensures
        tallied(chunk_step(s, chunk), s, !s.headers_emitted, false),
        chunk_step(s, chunk).state.headers_emitted,
{
    lemma_opening(s);
    let opened = opening(s);
    match chunk.array_at("choices"@) {
        Some(choices) if choices.len() > 0 => {
            lemma_choice_step(opened.state, choices[0]);
            lemma_tallied_chain(
                opened,
                choice_step(opened.state, choices[0]),
                s,
                !s.headers_emitted,
                false,
            );
        },
        _ => {},
    }
}

/// The end of a stream ends the response once, with the last event, and leaves its message
/// closed.
pub proof fn law_end_events(s: StreamView)
    ensures
        tallied(end_step(s), s, false, true),
        end_step(s).state.msg_closed,
        kind_of(end_step(s).events.last()) == Some(completed()),
{
    lemma_kinds();
    lemma_kind_of();
    lemma_closing(s);
    let closed = closing(s);
    let t = closed.state;
    let pending = all_done_events(unfinished(t.active, t.completed));
    lemma_done_events(unfinished(t.active, t.completed));
    lemma_tallied_plain(Progress { state: t, events: pending }, t);
    let whole = end_step(s).events;
    let last = whole.last();
    assert(pending.push(last).drop_last() =~= pending);
    assert(whole =~= closed.events + pending.push(last));
    let rest = Progress {
        state: StreamView { ended: true, ..t },
        events: pending.push(last),
    };
    lemma_tallied_chain(closed, rest, s, false, true);
    assert(chain(closed, rest) == end_step(s));
}

/// A line opens the response if it carries a chunk and the response is not open, and ends it
/// if it announces the end of the stream and the response has not ended.
pub proof fn law_line_events(s: StreamView, line: Seq<char>)
    ensures
        tallied(
            line_step(s, line),
            s,
            line_chunk(line) is Some && !s.headers_emitted,
            is_done(line) && !s.ended,
        ),
{
    if is_done(line) {
        law_end_events(s);
        lemma_tallied_plain(still(s), s);
    } else {
        match line_chunk(line) {
            Some(chunk) => {
                law_chunk_events(s, chunk);
            },
            None => {
                lemma_tallied_plain(still(s), s);
            },
        }
    }
}

/// After the end of a stream has been announced, announcing it again gives the client nothing
/// and changes nothing.
pub proof fn law_second_end_is_silent(s: StreamView, line: Seq<char>)
    requires
        is_done(line),
    ensures
        line_output(line_step(s, line).state, line) is None,
        line_step(line_step(s, line).state, line) == still(line_step(s, line).state),
{
}

/// A stream that has ended stays so.
pub proof fn law_end_is_final(s: StreamView, line: Seq<char>)
    ensures
        s.ended ==> line_step(s, line).state.ended,
        line_step(s, line).state.ended == (s.ended || is_done(line)),
{
    if let Some(chunk) = line_chunk(line) {
        law_text_is_kept(s, chunk);
    }
}

/// The response is opened by the first event of the first chunk.
pub proof fn law_opened_first(s: StreamView, chunk: JsonView)
    requires
        !s.headers_emitted,
    ensures
        chunk_step(s, chunk).events.len() > 0,
        kind_of(chunk_step(s, chunk).events[0]) == Some(created()),
{
    lemma_kind_of();
    assert(chunk_step(s, chunk).events[0] == header_events(s)[0]);
}

// ── What is kept ───────────────────────────────────────────────────────────

/// The text that the first choice of a chunk adds to the message.
pub open spec fn chunk_text(chunk: JsonView) -> Seq<char> {
    match chunk.array_at("choices"@) {
        Some(choices) if choices.len() > 0 => choices[0].get_or("delta"@, empty_object()).text_at(
            "content"@,
        ),
        _ => Seq::empty(),
    }
}

/// Pieces of tool calls leave the text, the model and the identifiers as they are.
proof fn lemma_calls_keep(s: StreamView, calls: Seq<JsonView>)
    ensures
        ({
            let t = calls_step(s, calls).state;
            &&& t.full_text == s.full_text
            &&& t.model == s.model
            &&& t.msg_id == s.msg_id
            &&& t.resp_id == s.resp_id
            &&& t.created == s.created
            &&& t.ended == s.ended
        }),
    decreases calls.len(),
{
    if calls.len() > 0 {
        lemma_calls_keep(s, calls.drop_last());
    }
}

/// The text of the message is what the chunks add to it, in their order; the model, the
/// identifiers and the time stamp of a response do not change, and no chunk ends it.
pub proof fn law_text_is_kept(s: StreamView, chunk: JsonView)
    ensures
        chunk_step(s, chunk).state.full_text == s.full_text + chunk_text(chunk),
        chunk_step(s, chunk).state.model == s.model,
        chunk_step(s, chunk).state.msg_id == s.msg_id,
        chunk_step(s, chunk).state.resp_id == s.resp_id,
        chunk_step(s, chunk).state.created == s.created,
        chunk_step(s, chunk).state.ended == s.ended,
        end_step(s).state.full_text == s.full_text,
{
    let opened = opening(s);
    assert(s.full_text + Seq::<char>::empty() =~= s.full_text);
    match chunk.array_at("choices"@) {
        Some(choices) if choices.len() > 0 => {
            let delta = choices[0].get_or("delta"@, empty_object());
            let told = words_step(opened.state, delta);
            if delta.text_at("content"@).len() == 0 {
                assert(delta.text_at("content"@) =~= Seq::empty());
            }
            if let Some(calls) = delta.array_at("tool_calls"@) {
                lemma_calls_keep(told.state, calls);
            }
        },
        _ => {},
    }
}

// ── The places of output items ─────────────────────────────────────────────

/// The place of the message is taken, the places of the tool calls are those behind it, and no
/// two open calls have the same index.
pub open spec fn places(s: StreamView) -> bool {
    &&& s.output_index == if s.msg_closed {
        1usize
    } else {
        0usize
    }
    &&& s.active.len() > 0 ==> s.msg_closed
    &&& forall|i: int|
        0 <= i < s.active.len() ==> (#[trigger] s.active[i]).output_index == wrapping_sum(
            1,
            s.active[i].index,
        )
    &&& forall|i: int, j: int|
        0 <= i < j < s.active.len() ==> (#[trigger] s.active[i]).index != (
        #[trigger] s.active[j]).index
    &&& forall|i: int|
        0 <= i < s.completed.len() ==> (#[trigger] s.completed[i]).output_index == wrapping_sum(
            1,
            s.completed[i].index,
        )
}

/// What holds of the place that is found for an index.
pub proof fn lemma_call_at(calls: Seq<CallView>, index: usize)
    ensures
        0 <= call_at(calls, index) <= calls.len(),
        call_at(calls, index) < calls.len() ==> calls[call_at(calls, index)].index == index,
        forall|j: int| 0 <= j < call_at(calls, index) ==> (#[trigger] calls[j]).index != index,
    decreases calls.len(),
{
    if calls.len() > 0 && calls[0].index != index {
        lemma_call_at(calls.skip(1), index);
        let k = call_at(calls.skip(1), index);
        assert forall|j: int| 0 <= j < 1 + k implies (#[trigger] calls[j]).index != index by {
            if j > 0 {
                assert(calls[j] == calls.skip(1)[j - 1]);
            }
        }
    }
}

/// A piece of a tool call keeps the places.
proof fn lemma_call_keeps_places(s: StreamView, call: JsonView)
    requires
        places(s),
    ensures
        places(call_step(s, call).state),
{
    lemma_call_at(s.active, call_index(call));
    let i = call_at(s.active, call_index(call));
    let t = call_step(s, call).state;
    if i < s.active.len() {
        assert forall|j: int| 0 <= j < t.active.len() implies (#[trigger] t.active[j]).index
            == s.active[j].index && t.active[j].output_index == s.active[j].output_index by {}
    } else {
        let opened = opened_call(closing(s).state, call);
        assert(t.active == s.active.push(opened));
        assert forall|j: int| 0 <= j < s.active.len() implies #[trigger] t.active[j]
            == s.active[j] by {}
    }
}

/// Pieces of tool calls keep the places.
pub proof fn lemma_calls_keep_places(s: StreamView, calls: Seq<JsonView>)
    requires
        places(s),
    ensures
        places(calls_step(s, calls).state),
    decreases calls.len(),
{
    if calls.len() > 0 {
        lemma_calls_keep_places(s, calls.drop_last());
        lemma_call_keeps_places(calls_step(s, calls.drop_last()).state, calls.last());
    }
}

/// Every stream keeps the places of its output items: the message has place 0, a tool call has
/// the place behind it that its index tells.
pub proof fn law_places_are_kept(s: StreamView, chunk: JsonView)
    requires
        places(s),
    ensures
        places(chunk_step(s, chunk).state),
        places(end_step(s).state),
{
    let opened = opening(s);
    match chunk.array_at("choices"@) {
        Some(choices) if choices.len() > 0 => {
            let delta = choices[0].get_or("delta"@, empty_object());
            let told = words_step(opened.state, delta);
            assert(places(told.state));
            if let Some(calls) = delta.array_at("tool_calls"@) {
                lemma_calls_keep_places(told.state, calls);
            }
        },
        _ => {},
    }
}

/// A stream of which nothing has arrived has its places in order.
pub proof fn law_places_of_fresh(
    model: Seq<char>,
    msg_id: Seq<char>,
    resp_id: Seq<char>,
    created_at: u64,
)
    ensures
        places(fresh(model, msg_id, resp_id, created_at)),
{
}

}
