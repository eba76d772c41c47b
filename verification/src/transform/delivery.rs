//! What of a Chat Completions stream arrives in the Responses stream.

use crate::json::JsonView;
use crate::transform::laws::{
    law_places_are_kept, law_text_is_kept, lemma_call_at as lemma_found_call,
    lemma_calls_keep_places, places,
};
use crate::transform::response::{
    lemma_completed_response, message_item, text_part, token_usage, usual_members,
};
use crate::transform::stream::{
    all_done_events, announced_response, arguments_event, call_at, call_function, call_index,
    call_item, call_step, calls_step, chain, chunk_step, closing, delta_event, done_events,
    done_item, end_step, final_response, finish_step, fresh, header_events, item_event,
    lemma_call_at, opened_call, opening, output_items, part_event, reasoning_step, response_event,
    text_step, token_sum, unfinished, with_usage, words_step, wrapping_sum, CallView, Progress,
    StreamView,
};
use vstd::prelude::*;

verus! {

broadcast use vstd::string::group_string_axioms;

// ── What chunks carry ──────────────────────────────────────────────────────

/// A member, or `null`.
pub open spec fn member(v: JsonView, key: Seq<char>) -> JsonView {
    match v.get(key) {
        Some(m) => m,
        None => JsonView::Null,
    }
}

/// The characters of a member that is a string.
pub open spec fn words(v: JsonView, key: Seq<char>) -> Seq<char> {
    match v.get(key) {
        Some(JsonView::Str(text)) => text,
        _ => Seq::empty(),
    }
}

/// The first choice of a chunk, or `null`.
pub open spec fn first_choice(chunk: JsonView) -> JsonView {
    match chunk.get("choices"@) {
        Some(JsonView::Array(choices)) if choices.len() > 0 => choices[0],
        _ => JsonView::Null,
    }
}

/// The pieces of tool calls that a chunk carries.
pub open spec fn pieces_of(chunk: JsonView) -> Seq<JsonView> {
    match member(first_choice(chunk), "delta"@).get("tool_calls"@) {
        Some(JsonView::Array(pieces)) => pieces,
        _ => Seq::empty(),
    }
}

/// Whether a chunk tells that the tool calls are complete.
pub open spec fn finishes(chunk: JsonView) -> bool {
    first_choice(chunk).get("finish_reason"@) == Some(JsonView::Str("tool_calls"@))
}

/// The pieces of tool calls that chunks carry, in their order.
pub open spec fn all_pieces(chunks: Seq<JsonView>) -> Seq<JsonView>
    decreases chunks.len(),
{
    if chunks.len() == 0 {
        Seq::empty()
    } else {
        all_pieces(chunks.drop_last()) + pieces_of(chunks.last())
    }
}

/// The index of the tool call that a piece belongs to.
pub open spec fn piece_index(piece: JsonView) -> usize {
    match piece.get("index"@) {
        Some(JsonView::Int(n)) if 0 <= n <= u64::MAX => (n as u64) as usize,
        _ => 0,
    }
}

/// The characters of the arguments in a piece.
pub open spec fn piece_arguments(piece: JsonView) -> Seq<char> {
    words(member(piece, "function"@), "arguments"@)
}

/// The arguments in the pieces of one tool call, one after the other.
pub open spec fn carried_arguments(pieces: Seq<JsonView>, index: usize) -> Seq<char>
    decreases pieces.len(),
{
    if pieces.len() == 0 {
        Seq::empty()
    } else if piece_index(pieces.last()) == index {
        carried_arguments(pieces.drop_last(), index) + piece_arguments(pieces.last())
    } else {
        carried_arguments(pieces.drop_last(), index)
    }
}

/// The first piece of a tool call.
pub open spec fn first_piece(pieces: Seq<JsonView>, index: usize) -> Option<JsonView>
    decreases pieces.len(),
{
    if pieces.len() == 0 {
        None
    } else {
        match first_piece(pieces.drop_last(), index) {
            Some(piece) => Some(piece),
            None => if piece_index(pieces.last()) == index {
                Some(pieces.last())
            } else {
                None
            },
        }
    }
}

/// The text that chunks carry for the message, one piece after the other.
pub open spec fn carried_text(chunks: Seq<JsonView>) -> Seq<char>
    decreases chunks.len(),
{
    if chunks.len() == 0 {
        Seq::empty()
    } else {
        carried_text(chunks.drop_last()) + words(
            member(first_choice(chunks.last()), "delta"@),
            "content"@,
        )
    }
}

/// The reasoning that chunks carry, one piece after the other.
pub open spec fn carried_reasoning(chunks: Seq<JsonView>) -> Seq<char>
    decreases chunks.len(),
{
    if chunks.len() == 0 {
        Seq::empty()
    } else {
        carried_reasoning(chunks.drop_last()) + words(
            member(first_choice(chunks.last()), "delta"@),
            "reasoning_content"@,
        )
    }
}

/// What chunks do, one after the other.
pub open spec fn chunks_step(s: StreamView, chunks: Seq<JsonView>) -> Progress
    decreases chunks.len(),
{
    if chunks.len() == 0 {
        Progress { state: s, events: Seq::empty() }
    } else {
        let before = chunks_step(s, chunks.drop_last());
        let step = chunk_step(before.state, chunks.last());
        Progress { state: step.state, events: before.events + step.events }
    }
}

// ── What events tell ───────────────────────────────────────────────────────

/// The events that are of interest, in their order.
pub open spec fn picked(events: Seq<JsonView>, wanted: spec_fn(JsonView) -> bool) -> Seq<JsonView>
    decreases events.len(),
{
    if events.len() == 0 {
        Seq::empty()
    } else if wanted(events.last()) {
        picked(events.drop_last(), wanted).push(events.last())
    } else {
        picked(events.drop_last(), wanted)
    }
}

/// Events of a kind.
pub open spec fn of_kind(kind: Seq<char>) -> spec_fn(JsonView) -> bool {
    |event: JsonView| event.get("type"@) == Some(JsonView::Str(kind))
}

/// Events of a kind about the tool call at a place of the output.
pub open spec fn of_call(kind: Seq<char>, place: int) -> spec_fn(JsonView) -> bool {
    |event: JsonView|
        {
            &&& event.get("type"@) == Some(JsonView::Str(kind))
            &&& event.get("output_index"@) == Some(JsonView::Int(place))
            &&& member(event, "item"@).get("type"@) != Some(JsonView::Str("message"@))
        }
}

/// The characters of a member of events, one after the other.
pub open spec fn spelled(events: Seq<JsonView>, key: Seq<char>) -> Seq<char>
    decreases events.len(),
{
    if events.len() == 0 {
        Seq::empty()
    } else {
        spelled(events.drop_last(), key) + words(events.last(), key)
    }
}

/// The place of a tool call in the output: behind the message, by its index.
pub open spec fn place_of(index: usize) -> int {
    if index == usize::MAX {
        0
    } else {
        index + 1
    }
}

/// An item of the output for a tool call.
pub open spec fn is_call(
    item: JsonView,
    id: Seq<char>,
    name: Seq<char>,
    arguments: Seq<char>,
    status: Seq<char>,
) -> bool {
    &&& item.get("type"@) == Some(JsonView::Str("function_call"@))
    &&& item.get("id"@) == Some(JsonView::Str(id))
    &&& item.get("call_id"@) == Some(JsonView::Str(id))
    &&& item.get("name"@) == Some(JsonView::Str(name))
    &&& item.get("arguments"@) == Some(JsonView::Str(arguments))
    &&& item.get("status"@) == Some(JsonView::Str(status))
}

/// An item of the output for the message.
pub open spec fn is_message(
    item: JsonView,
    id: Seq<char>,
    status: Seq<char>,
    texts: Seq<Seq<char>>,
) -> bool {
    &&& item.get("type"@) == Some(JsonView::Str("message"@))
    &&& item.get("id"@) == Some(JsonView::Str(id))
    &&& item.get("role"@) == Some(JsonView::Str("assistant"@))
    &&& item.get("status"@) == Some(JsonView::Str(status))
    &&& item.get("content"@) matches Some(JsonView::Array(parts)) && parts.len() == texts.len()
        && forall|i: int|
        0 <= i < parts.len() ==> is_output_text(#[trigger] parts[i], texts[i])
}

/// A part of the output that is text.
pub open spec fn is_output_text(part: JsonView, text: Seq<char>) -> bool {
    &&& part.get("type"@) == Some(JsonView::Str("output_text"@))
    &&& part.get("text"@) == Some(JsonView::Str(text))
}

// ── Events and their members ───────────────────────────────────────────────

/// Picking from two lists is picking from one, then from the other.
proof fn lemma_picked_concat(
    a: Seq<JsonView>,
    b: Seq<JsonView>,
    wanted: spec_fn(JsonView) -> bool,
)
    ensures
        picked(a + b, wanted) == picked(a, wanted) + picked(b, wanted),
    decreases b.len(),
{
    if b.len() == 0 {
        assert(a + b =~= a);
        assert(picked(a, wanted) + picked(b, wanted) =~= picked(a, wanted));
    } else {
        assert((a + b).drop_last() =~= a + b.drop_last());
        lemma_picked_concat(a, b.drop_last(), wanted);
        assert(picked(a + b, wanted) =~= picked(a, wanted) + picked(b, wanted));
    }
}

/// Where nothing is wanted, nothing is picked.
proof fn lemma_picked_none(events: Seq<JsonView>, wanted: spec_fn(JsonView) -> bool)
    requires
        forall|i: int| 0 <= i < events.len() ==> !wanted(#[trigger] events[i]),
    ensures
        picked(events, wanted) == Seq::<JsonView>::empty(),
    decreases events.len(),
{
    if events.len() > 0 {
        let earlier = events.drop_last();
        assert forall|i: int| 0 <= i < earlier.len() implies !wanted(#[trigger] earlier[i]) by {
            assert(earlier[i] == events[i]);
        }
        lemma_picked_none(earlier, wanted);
        assert(!wanted(events[events.len() - 1]));
    }
}

/// One event is picked if it is wanted.
proof fn lemma_picked_one(event: JsonView, wanted: spec_fn(JsonView) -> bool)
    ensures
        picked(seq![event], wanted) == if wanted(event) {
            seq![event]
        } else {
            Seq::empty()
        },
{
    assert(seq![event].drop_last() =~= Seq::empty());
    assert(picked(Seq::empty(), wanted) =~= Seq::empty());
    assert(picked(seq![event], wanted) =~= if wanted(event) {
        seq![event]
    } else {
        Seq::empty()
    });
}

/// Two events are picked if they are wanted.
proof fn lemma_picked_two(a: JsonView, b: JsonView, wanted: spec_fn(JsonView) -> bool)
    ensures
        picked(seq![a, b], wanted) == picked(seq![a], wanted) + picked(seq![b], wanted),
{
    assert(seq![a, b] =~= seq![a] + seq![b]);
    lemma_picked_concat(seq![a], seq![b], wanted);
}

/// Spelling two lists is spelling one, then the other.
proof fn lemma_spelled_concat(a: Seq<JsonView>, b: Seq<JsonView>, key: Seq<char>)
    ensures
        spelled(a + b, key) == spelled(a, key) + spelled(b, key),
    decreases b.len(),
{
    if b.len() == 0 {
        assert(a + b =~= a);
        assert(spelled(a, key) + spelled(b, key) =~= spelled(a, key));
    } else {
        assert((a + b).drop_last() =~= a + b.drop_last());
        lemma_spelled_concat(a, b.drop_last(), key);
        assert(spelled(a + b, key) =~= spelled(a, key) + spelled(b, key));
    }
}

/// Spelling one event.
proof fn lemma_spelled_one(event: JsonView, key: Seq<char>)
    ensures
        spelled(seq![event], key) == words(event, key),
{
    assert(seq![event].drop_last() =~= Seq::empty());
    assert(spelled(Seq::empty(), key) =~= Seq::empty());
    assert(spelled(seq![event], key) =~= words(event, key));
}

/// The kinds of events.
spec fn all_kinds() -> Seq<Seq<char>> {
    seq![
        "response.created"@,
        "response.in_progress"@,
        "response.output_item.added"@,
        "response.content_part.added"@,
        "response.content_part.done"@,
        "response.output_item.done"@,
        "response.reasoning_text.delta"@,
        "response.output_text.delta"@,
        "response.function_call_arguments.delta"@,
        "response.function_call_arguments.done"@,
        "response.completed"@,
    ]
}

/// The kinds of events are told apart.
proof fn lemma_kinds()
    ensures
        forall|i: int, j: int|
            0 <= i < 11 && 0 <= j < 11 && i != j ==> #[trigger] all_kinds()[i]
                != #[trigger] all_kinds()[j],
        all_kinds()[0] == "response.created"@,
        all_kinds()[1] == "response.in_progress"@,
        all_kinds()[2] == "response.output_item.added"@,
        all_kinds()[3] == "response.content_part.added"@,
        all_kinds()[4] == "response.content_part.done"@,
        all_kinds()[5] == "response.output_item.done"@,
        all_kinds()[6] == "response.reasoning_text.delta"@,
        all_kinds()[7] == "response.output_text.delta"@,
        all_kinds()[8] == "response.function_call_arguments.delta"@,
        all_kinds()[9] == "response.function_call_arguments.done"@,
        all_kinds()[10] == "response.completed"@,
        "function_call"@ != "message"@,
{
    reveal_strlit("response.created");
    reveal_strlit("response.in_progress");
    reveal_strlit("response.output_item.added");
    reveal_strlit("response.content_part.added");
    reveal_strlit("response.content_part.done");
    reveal_strlit("response.output_item.done");
    reveal_strlit("response.reasoning_text.delta");
    reveal_strlit("response.output_text.delta");
    reveal_strlit("response.function_call_arguments.delta");
    reveal_strlit("response.function_call_arguments.done");
    reveal_strlit("response.completed");
    reveal_strlit("function_call");
    reveal_strlit("message");
    assert("response.created"@.len() == 16);
    assert("response.in_progress"@.len() == 20);
    assert("response.output_item.added"@.len() == 26);
    assert("response.content_part.added"@.len() == 27);
    assert("response.content_part.done"@.len() == 26);
    assert("response.output_item.done"@.len() == 25);
    assert("response.reasoning_text.delta"@.len() == 29);
    assert("response.output_text.delta"@.len() == 26);
    assert("response.function_call_arguments.delta"@.len() == 38);
    assert("response.function_call_arguments.done"@.len() == 37);
    assert("response.completed"@.len() == 18);
    assert("function_call"@.len() == 13);
    assert("message"@.len() == 7);
    assert("response.content_part.done"@[9] == 'c');
    assert("response.output_item.added"@[9] == 'o');
    assert("response.output_item.added"@[16] == 'i');
    assert("response.output_text.delta"@[9] == 'o');
    assert("response.output_text.delta"@[16] == 't');
}

/// The members of events and items are told apart.
proof fn lemma_event_members()
    ensures
        forall|kind: Seq<char>, n: int, item: JsonView|
            #![trigger item_event(kind, n, item)]
            {
                let e = item_event(kind, n, item);
                &&& e.get("type"@) == Some(JsonView::Str(kind))
                &&& e.get("output_index"@) == Some(JsonView::Int(n))
                &&& e.get("item"@) == Some(item)
            },
        forall|kind: Seq<char>, text: Seq<char>|
            #![trigger part_event(kind, text)]
            {
                let e = part_event(kind, text);
                &&& e.get("type"@) == Some(JsonView::Str(kind))
                &&& e.get("output_index"@) == Some(JsonView::Int(0))
                &&& e.get("content_index"@) == Some(JsonView::Int(0))
                &&& e.get("part"@) == Some(text_part(text))
                &&& e.get("item"@) is None
            },
        forall|kind: Seq<char>, id: Seq<char>, text: Seq<char>|
            #![trigger delta_event(kind, id, text)]
            {
                let e = delta_event(kind, id, text);
                &&& e.get("type"@) == Some(JsonView::Str(kind))
                &&& e.get("item_id"@) == Some(JsonView::Str(id))
                &&& e.get("output_index"@) == Some(JsonView::Int(0))
                &&& e.get("content_index"@) == Some(JsonView::Int(0))
                &&& e.get("delta"@) == Some(JsonView::Str(text))
                &&& e.get("item"@) is None
            },
        forall|kind: Seq<char>, call: CallView, text: Seq<char>|
            #![trigger arguments_event(kind, call, "delta"@, text)]
            {
                let e = arguments_event(kind, call, "delta"@, text);
                &&& e.get("type"@) == Some(JsonView::Str(kind))
                &&& e.get("item_id"@) == Some(JsonView::Str(call.id))
                &&& e.get("output_index"@) == Some(JsonView::Int(call.output_index as int))
                &&& e.get("delta"@) == Some(JsonView::Str(text))
                &&& e.get("item"@) is None
            },
        forall|kind: Seq<char>, call: CallView, text: Seq<char>|
            #![trigger arguments_event(kind, call, "arguments"@, text)]
            {
                let e = arguments_event(kind, call, "arguments"@, text);
                &&& e.get("type"@) == Some(JsonView::Str(kind))
                &&& e.get("item_id"@) == Some(JsonView::Str(call.id))
                &&& e.get("output_index"@) == Some(JsonView::Int(call.output_index as int))
                &&& e.get("arguments"@) == Some(JsonView::Str(text))
                &&& e.get("item"@) is None
            },
        forall|kind: Seq<char>, response: JsonView|
            #![trigger response_event(kind, response)]
            {
                let e = response_event(kind, response);
                &&& e.get("type"@) == Some(JsonView::Str(kind))
                &&& e.get("response"@) == Some(response)
                &&& e.get("output_index"@) is None
            },
        forall|call: CallView, arguments: Seq<char>, status: Seq<char>|
            is_call(
                #[trigger] call_item(call, arguments, status),
                call.id,
                call.name,
                arguments,
                status,
            ),
{
    reveal_strlit("type");
    reveal_strlit("response");
    reveal_strlit("output_index");
    reveal_strlit("item");
    reveal_strlit("content_index");
    reveal_strlit("part");
    reveal_strlit("item_id");
    reveal_strlit("delta");
    reveal_strlit("arguments");
    reveal_strlit("id");
    reveal_strlit("call_id");
    reveal_strlit("name");
    reveal_strlit("status");
    reveal_strlit("role");
    reveal_strlit("content");
    assert("type"@.len() == 4);
    assert("response"@.len() == 8);
    assert("output_index"@.len() == 12);
    assert("item"@.len() == 4);
    assert("content_index"@.len() == 13);
    assert("part"@.len() == 4);
    assert("item_id"@.len() == 7);
    assert("delta"@.len() == 5);
    assert("arguments"@.len() == 9);
    assert("id"@.len() == 2);
    assert("call_id"@.len() == 7);
    assert("name"@.len() == 4);
    assert("status"@.len() == 6);
    assert("role"@.len() == 4);
    assert("content"@.len() == 7);
    assert("call_id"@[0] == 'c');
    assert("call_id"@[1] == 'a');
    assert("content"@[0] == 'c');
    assert("content"@[1] == 'o');
    assert("item"@[0] == 'i');
    assert("item_id"@[0] == 'i');
    assert("name"@[0] == 'n');
    assert("part"@[0] == 'p');
    assert("role"@[0] == 'r');
    assert("type"@[0] == 't');
}

// ── Tool calls ─────────────────────────────────────────────────────────────

/// The open call with an index.
spec fn held(calls: Seq<CallView>, index: usize) -> Option<CallView> {
    let k = call_at(calls, index);
    if k < calls.len() {
        Some(calls[k])
    } else {
        None
    }
}

/// The kind of an event that opens an output item.
spec fn added() -> Seq<char> {
    "response.output_item.added"@
}

/// The kind of an event with a piece of arguments.
spec fn delta() -> Seq<char> {
    "response.function_call_arguments.delta"@
}

/// The kind of an event with all arguments.
spec fn whole() -> Seq<char> {
    "response.function_call_arguments.done"@
}

/// The kind of an event that closes an output item.
spec fn closed() -> Seq<char> {
    "response.output_item.done"@
}

/// What the events have told of a call is what the pieces carried of it, and the open call holds
/// that.
spec fn accounts(
    s: StreamView,
    pieces: Seq<JsonView>,
    events: Seq<JsonView>,
    index: usize,
) -> bool {
    let opened = picked(events, of_call(added(), place_of(index)));
    let deltas = picked(events, of_call(delta(), place_of(index)));
    match (first_piece(pieces, index), held(s.active, index)) {
        (None, None) => {
            &&& opened.len() == 0
            &&& deltas.len() == 0
            &&& carried_arguments(pieces, index).len() == 0
        },
        (Some(first), Some(call)) => {
            &&& call.index == index
            &&& call.output_index == place_of(index)
            &&& call.id == words(first, "id"@)
            &&& call.name == words(member(first, "function"@), "name"@)
            &&& call.arguments == carried_arguments(pieces, index)
            &&& opened.len() == 1
            &&& is_call(
                member(opened[0], "item"@),
                call.id,
                call.name,
                Seq::empty(),
                "in_progress"@,
            )
            &&& piece_arguments(first) + spelled(deltas, "delta"@) == call.arguments
            &&& forall|i: int|
                0 <= i < deltas.len() ==> (#[trigger] deltas[i]).get("item_id"@) == Some(
                    JsonView::Str(call.id),
                )
        },
        _ => false,
    }
}

/// A piece is read as what it carries.
proof fn lemma_piece(piece: JsonView)
    ensures
        call_index(piece) == piece_index(piece),
        call_function(piece).text_at("arguments"@) == piece_arguments(piece),
        call_function(piece).text_at("name"@) == words(member(piece, "function"@), "name"@),
        piece.text_at("id"@) == words(piece, "id"@),
{
}

/// One more piece is accounted for.
proof fn lemma_account_piece(
    s: StreamView,
    pieces: Seq<JsonView>,
    events: Seq<JsonView>,
    index: usize,
    piece: JsonView,
)
    requires
        places(s),
        accounts(s, pieces, events, index),
    ensures
        accounts(
            call_step(s, piece).state,
            pieces.push(piece),
            events + call_step(s, piece).events,
            index,
        ),
{
    lemma_piece(piece);
    lemma_kinds();
    lemma_event_members();
    let step = call_step(s, piece);
    let place = place_of(index);
    let more = step.events;
    let seen = pieces.push(piece);
    assert(seen.drop_last() =~= pieces);
    lemma_picked_concat(events, more, of_call(added(), place));
    lemma_picked_concat(events, more, of_call(delta(), place));
    lemma_found_call(s.active, call_index(piece));
    lemma_found_call(s.active, index);
    let k = call_at(s.active, call_index(piece));
    let deltas = picked(events, of_call(delta(), place));
    if k < s.active.len() {
        let event = more[0];
        assert(more =~= seq![event]);
        lemma_picked_one(event, of_call(added(), place));
        lemma_picked_one(event, of_call(delta(), place));
        let after = step.state.active;
        assert forall|j: int| 0 <= j < after.len() implies (#[trigger] after[j]).index
            == s.active[j].index by {}
        let i = call_at(s.active, index);
        lemma_call_at(after, index, i);
        assert(picked(events, of_call(added(), place)) + Seq::<JsonView>::empty() =~= picked(
            events,
            of_call(added(), place),
        ));
        if piece_index(piece) == index {
            let all = deltas + seq![event];
            lemma_spelled_concat(deltas, seq![event], "delta"@);
            lemma_spelled_one(event, "delta"@);
            let first = first_piece(pieces, index)->0;
            assert(piece_arguments(first) + spelled(all, "delta"@) =~= (piece_arguments(first)
                + spelled(deltas, "delta"@)) + piece_arguments(piece));
            assert forall|j: int| 0 <= j < all.len() implies (#[trigger] all[j]).get("item_id"@)
                == Some(JsonView::Str(s.active[k].id)) by {
                if j < deltas.len() {
                    assert(all[j] == deltas[j]);
                }
            }
        } else {
            assert(s.active[k].output_index != place);
            assert(deltas + Seq::<JsonView>::empty() =~= deltas);
        }
    } else {
        let shut = closing(s);
        let call = opened_call(shut.state, piece);
        let event = item_event(
            added(),
            call.output_index as int,
            call_item(call, Seq::empty(), "in_progress"@),
        );
        assert(more =~= shut.events + seq![event]);
        lemma_picked_concat(shut.events, seq![event], of_call(added(), place));
        lemma_picked_concat(shut.events, seq![event], of_call(delta(), place));
        lemma_picked_none(shut.events, of_call(added(), place));
        lemma_picked_none(shut.events, of_call(delta(), place));
        lemma_picked_one(event, of_call(added(), place));
        lemma_picked_one(event, of_call(delta(), place));
        let after = step.state.active;
        assert(after =~= s.active.push(call));
        let opened = picked(events, of_call(added(), place));
        if piece_index(piece) == index {
            assert(call.output_index == place);
            assert forall|j: int| 0 <= j < s.active.len() implies (#[trigger] after[j]).index
                != index by {
                assert(after[j] == s.active[j]);
            }
            lemma_call_at(after, index, s.active.len() as int);
            assert(opened =~= Seq::empty());
            assert(deltas =~= Seq::empty());
            assert(picked(events + more, of_call(added(), place)) =~= seq![event]);
            assert(picked(events + more, of_call(delta(), place)) =~= Seq::empty());
            assert(piece_arguments(piece) + spelled(Seq::empty(), "delta"@) =~= piece_arguments(
                piece,
            ));
            assert(carried_arguments(seen, index) =~= piece_arguments(piece));
        } else {
            assert(call.output_index != place);
            let i = call_at(s.active, index);
            assert forall|j: int| 0 <= j < i implies (#[trigger] after[j]).index != index by {
                assert(after[j] == s.active[j]);
            }
            if i < s.active.len() {
                lemma_call_at(after, index, i);
            } else {
                assert forall|j: int| 0 <= j < after.len() implies (#[trigger] after[j]).index
                    != index by {
                    if j < s.active.len() {
                        assert(after[j] == s.active[j]);
                    }
                }
                lemma_call_at(after, index, after.len() as int);
            }
            assert(picked(events + more, of_call(added(), place)) =~= opened);
            assert(picked(events + more, of_call(delta(), place)) =~= deltas);
        }
    }
}

/// More pieces are accounted for.
proof fn lemma_account_pieces(
    s: StreamView,
    pieces: Seq<JsonView>,
    events: Seq<JsonView>,
    index: usize,
    more: Seq<JsonView>,
)
    requires
        places(s),
        accounts(s, pieces, events, index),
    ensures
        places(calls_step(s, more).state),
        accounts(
            calls_step(s, more).state,
            pieces + more,
            events + calls_step(s, more).events,
            index,
        ),
    decreases more.len(),
{
    lemma_calls_keep_places(s, more);
    if more.len() == 0 {
        assert(pieces + more =~= pieces);
        assert(events + calls_step(s, more).events =~= events);
    } else {
        let earlier = more.drop_last();
        lemma_account_pieces(s, pieces, events, index, earlier);
        let before = calls_step(s, earlier);
        lemma_account_piece(
            before.state,
            pieces + earlier,
            events + before.events,
            index,
            more.last(),
        );
        assert((pieces + earlier).push(more.last()) =~= pieces + more);
        assert(events + before.events + call_step(before.state, more.last()).events =~= events
            + calls_step(s, more).events);
    }
}

/// Events that tell nothing of it change nothing in what is accounted for.
proof fn lemma_account_quiet(
    s: StreamView,
    t: StreamView,
    pieces: Seq<JsonView>,
    events: Seq<JsonView>,
    more: Seq<JsonView>,
    index: usize,
)
    requires
        accounts(s, pieces, events, index),
        t.active == s.active,
        forall|i: int|
            0 <= i < more.len() ==> !of_call(added(), place_of(index))(#[trigger] more[i])
                && !of_call(delta(), place_of(index))(more[i]),
    ensures
        accounts(t, pieces, events + more, index),
{
    let place = place_of(index);
    lemma_picked_concat(events, more, of_call(added(), place));
    lemma_picked_concat(events, more, of_call(delta(), place));
    lemma_picked_none(more, of_call(added(), place));
    lemma_picked_none(more, of_call(delta(), place));
    assert(picked(events + more, of_call(added(), place)) =~= picked(
        events,
        of_call(added(), place),
    ));
    assert(picked(events + more, of_call(delta(), place)) =~= picked(
        events,
        of_call(delta(), place),
    ));
}

/// What a chunk does before it completes the tool calls, if it does.
spec fn before_finish(s: StreamView, chunk: JsonView) -> Progress {
    let opened = opening(s);
    match chunk.array_at("choices"@) {
        Some(choices) if choices.len() > 0 => {
            let delta = choices[0].get_or("delta"@, JsonView::Object(Map::empty()));
            let told = words_step(opened.state, delta);
            chain(
                opened,
                match delta.array_at("tool_calls"@) {
                    Some(calls) => chain(told, calls_step(told.state, calls)),
                    None => told,
                },
            )
        },
        _ => opened,
    }
}

/// A chunk does that, then completes the tool calls if it tells so, and reports the usage.
proof fn lemma_chunk_parts(s: StreamView, chunk: JsonView)
    ensures
        ({
            let b = before_finish(s, chunk);
            chunk_step(s, chunk) == if finishes(chunk) {
                Progress {
                    state: with_usage(finish_step(b.state).state, chunk),
                    events: b.events + finish_step(b.state).events,
                }
            } else {
                Progress { state: with_usage(b.state, chunk), events: b.events }
            }
        }),
{
    let b = before_finish(s, chunk);
    if finishes(chunk) {
        assert(chunk_step(s, chunk).events =~= b.events + finish_step(b.state).events);
    }
}

/// What a chunk carries is accounted for.
proof fn lemma_account_chunk(
    s: StreamView,
    pieces: Seq<JsonView>,
    events: Seq<JsonView>,
    index: usize,
    chunk: JsonView,
)
    requires
        places(s),
        accounts(s, pieces, events, index),
    ensures
        ({
            let b = before_finish(s, chunk);
            &&& places(b.state)
            &&& b.state.completed == s.completed
            &&& accounts(b.state, pieces + pieces_of(chunk), events + b.events, index)
        }),
{
    lemma_kinds();
    lemma_event_members();
    lemma_items();
    let b = before_finish(s, chunk);
    let opened = opening(s);
    lemma_account_quiet(s, opened.state, pieces, events, opened.events, index);
    match chunk.array_at("choices"@) {
        Some(choices) if choices.len() > 0 => {
            let d = choices[0].get_or("delta"@, JsonView::Object(Map::empty()));
            let told = words_step(opened.state, d);
            lemma_account_quiet(
                opened.state,
                told.state,
                pieces,
                events + opened.events,
                told.events,
                index,
            );
            match d.array_at("tool_calls"@) {
                Some(calls) => {
                    assert(pieces_of(chunk) == calls);
                    lemma_account_pieces(
                        told.state,
                        pieces,
                        events + opened.events + told.events,
                        index,
                        calls,
                    );
                    lemma_completed_stays(told.state, calls);
                    assert(events + b.events =~= events + opened.events + told.events + calls_step(
                        told.state,
                        calls,
                    ).events);
                },
                None => {
                    assert(pieces_of(chunk) =~= Seq::empty());
                    assert(pieces + pieces_of(chunk) =~= pieces);
                    assert(events + b.events =~= events + opened.events + told.events);
                },
            }
        },
        _ => {
            assert(pieces_of(chunk) =~= Seq::empty());
            assert(pieces + pieces_of(chunk) =~= pieces);
        },
    }
}

/// Pieces of tool calls leave those that are complete as they are.
proof fn lemma_completed_stays(s: StreamView, calls: Seq<JsonView>)
    ensures
        calls_step(s, calls).state.completed == s.completed,
    decreases calls.len(),
{
    if calls.len() > 0 {
        lemma_completed_stays(s, calls.drop_last());
    }
}

/// The kinds of items.
proof fn lemma_items()
    ensures
        forall|id: Seq<char>, status: Seq<char>, content: Seq<JsonView>|
            (#[trigger] message_item(id, status, content)).get("type"@) == Some(
                JsonView::Str("message"@),
            ),
        forall|id: Seq<char>, status: Seq<char>|
            is_message(
                #[trigger] message_item(id, status, Seq::empty()),
                id,
                status,
                Seq::empty(),
            ),
        forall|id: Seq<char>, status: Seq<char>, text: Seq<char>|
            is_message(
                #[trigger] message_item(id, status, seq![text_part(text)]),
                id,
                status,
                seq![text],
            ),
        forall|text: Seq<char>| is_output_text(#[trigger] text_part(text), text),
{
    reveal_strlit("id");
    reveal_strlit("type");
    reveal_strlit("role");
    reveal_strlit("status");
    reveal_strlit("content");
    reveal_strlit("text");
    reveal_strlit("annotations");
    assert("id"@.len() == 2);
    assert("type"@.len() == 4);
    assert("role"@.len() == 4);
    assert("status"@.len() == 6);
    assert("content"@.len() == 7);
    assert("text"@.len() == 4);
    assert("annotations"@.len() == 11);
    assert("role"@[0] == 'r');
    assert("text"@[0] == 't');
    assert("text"@[1] == 'e');
    assert("type"@[0] == 't');
    assert("type"@[1] == 'y');
}

/// The call that is held in a list without its last one.
proof fn lemma_held_last(calls: Seq<CallView>, index: usize)
    requires
        calls.len() > 0,
        forall|i: int, j: int|
            0 <= i < j < calls.len() ==> (#[trigger] calls[i]).index != (#[trigger] calls[j]).index,
    ensures
        held(calls, index) == if calls.last().index == index {
            Some(calls.last())
        } else {
            held(calls.drop_last(), index)
        },
        calls.last().index == index ==> held(calls.drop_last(), index) is None,
{
    lemma_found_call(calls, index);
    let k = call_at(calls, index);
    let earlier = calls.drop_last();
    assert forall|j: int| 0 <= j < earlier.len() implies #[trigger] earlier[j] == calls[j] by {}
    if k < earlier.len() {
        lemma_call_at(earlier, index, k);
    } else {
        lemma_call_at(earlier, index, earlier.len() as int);
    }
}

/// Completing calls tells of each of them once.
proof fn lemma_done(calls: Seq<CallView>, index: usize)
    requires
        forall|i: int|
            0 <= i < calls.len() ==> (#[trigger] calls[i]).output_index == place_of(
                calls[i].index,
            ),
        forall|i: int, j: int|
            0 <= i < j < calls.len() ==> (#[trigger] calls[i]).index != (#[trigger] calls[j]).index,
    ensures
        ({
            let events = all_done_events(calls);
            let wholes = picked(events, of_call(whole(), place_of(index)));
            let items = picked(events, of_call(closed(), place_of(index)));
            match held(calls, index) {
                Some(call) => {
                    &&& wholes == seq![
                        arguments_event(whole(), call, "arguments"@, call.arguments),
                    ]
                    &&& items == seq![item_event(closed(), place_of(index), done_item(call))]
                },
                None => wholes.len() == 0 && items.len() == 0,
            }
        }),
        forall|i: int|
            0 <= i < all_done_events(calls).len() ==> !of_call(added(), place_of(index))(
                #[trigger] all_done_events(calls)[i],
            ) && !of_call(delta(), place_of(index))(all_done_events(calls)[i]),
    decreases calls.len(),
{
    let place = place_of(index);
    if calls.len() > 0 {
        lemma_kinds();
        lemma_event_members();
        let earlier = calls.drop_last();
        assert forall|j: int| 0 <= j < earlier.len() implies #[trigger] earlier[j] == calls[j] by {}
        lemma_done(earlier, index);
        lemma_held_last(calls, index);
        let call = calls.last();
        assert(call == calls[calls.len() - 1]);
        let a = all_done_events(earlier);
        let b = done_events(call);
        let first = arguments_event(whole(), call, "arguments"@, call.arguments);
        let second = item_event(closed(), call.output_index as int, done_item(call));
        assert(b =~= seq![first, second]);
        lemma_picked_concat(a, b, of_call(whole(), place));
        lemma_picked_concat(a, b, of_call(closed(), place));
        lemma_picked_two(first, second, of_call(whole(), place));
        lemma_picked_two(first, second, of_call(closed(), place));
        lemma_picked_one(first, of_call(whole(), place));
        lemma_picked_one(second, of_call(whole(), place));
        lemma_picked_one(first, of_call(closed(), place));
        lemma_picked_one(second, of_call(closed(), place));
        let wholes = picked(a + b, of_call(whole(), place));
        let items = picked(a + b, of_call(closed(), place));
        if call.index == index {
            assert(wholes =~= seq![first]);
            assert(items =~= seq![second]);
        } else {
            assert(call.output_index != place);
            assert(wholes =~= picked(a, of_call(whole(), place)));
            assert(items =~= picked(a, of_call(closed(), place)));
        }
        assert forall|i: int| 0 <= i < (a + b).len() implies !of_call(added(), place)(
            #[trigger] (a + b)[i],
        ) && !of_call(delta(), place)((a + b)[i]) by {
            if i < a.len() {
                assert((a + b)[i] == a[i]);
            } else {
                assert((a + b)[i] == b[i - a.len()]);
            }
        }
    }
}

/// Closing the message tells nothing of tool calls.
proof fn lemma_closing_is_quiet(s: StreamView, place: int)
    ensures
        picked(closing(s).events, of_call(added(), place)) == Seq::<JsonView>::empty(),
        picked(closing(s).events, of_call(delta(), place)) == Seq::<JsonView>::empty(),
        picked(closing(s).events, of_call(whole(), place)) == Seq::<JsonView>::empty(),
        picked(closing(s).events, of_call(closed(), place)) == Seq::<JsonView>::empty(),
{
    lemma_kinds();
    lemma_event_members();
    lemma_items();
    lemma_picked_none(closing(s).events, of_call(added(), place));
    lemma_picked_none(closing(s).events, of_call(delta(), place));
    lemma_picked_none(closing(s).events, of_call(whole(), place));
    lemma_picked_none(closing(s).events, of_call(closed(), place));
}

/// A stream in which no tool call is open.
pub open spec fn rested(s: StreamView) -> bool {
    places(s) && s.active.len() == 0
}

/// What the events tell of the making of the tool call with an index, of which these are the
/// pieces: it is opened once, with the name and the identifier in its first piece, and the
/// arguments in its first piece and those in the events behind it are all its arguments.
pub open spec fn tells_making(
    events: Seq<JsonView>,
    pieces: Seq<JsonView>,
    index: usize,
) -> bool {
    let opened = picked(events, of_call("response.output_item.added"@, place_of(index)));
    let deltas = picked(
        events,
        of_call("response.function_call_arguments.delta"@, place_of(index)),
    );
    match first_piece(pieces, index) {
        Some(first) => {
            &&& opened.len() == 1
            &&& is_call(
                member(opened[0], "item"@),
                words(first, "id"@),
                words(member(first, "function"@), "name"@),
                Seq::empty(),
                "in_progress"@,
            )
            &&& piece_arguments(first) + spelled(deltas, "delta"@) == carried_arguments(
                pieces,
                index,
            )
            &&& forall|i: int|
                0 <= i < deltas.len() ==> (#[trigger] deltas[i]).get("item_id"@) == Some(
                    JsonView::Str(words(first, "id"@)),
                )
        },
        None => opened.len() == 0 && deltas.len() == 0,
    }
}

/// What the events tell of the completion of the tool call with an index: once, that its arguments
/// are all those that its pieces carried, and once, that its item is complete.
pub open spec fn tells_completion(
    events: Seq<JsonView>,
    pieces: Seq<JsonView>,
    index: usize,
) -> bool {
    let wholes = picked(
        events,
        of_call("response.function_call_arguments.done"@, place_of(index)),
    );
    let items = picked(events, of_call("response.output_item.done"@, place_of(index)));
    match first_piece(pieces, index) {
        Some(first) => {
            &&& wholes.len() == 1
            &&& wholes[0].get("item_id"@) == Some(JsonView::Str(words(first, "id"@)))
            &&& wholes[0].get("arguments"@) == Some(
                JsonView::Str(carried_arguments(pieces, index)),
            )
            &&& items.len() == 1
            &&& is_call(
                member(items[0], "item"@),
                words(first, "id"@),
                words(member(first, "function"@), "name"@),
                carried_arguments(pieces, index),
                "completed"@,
            )
        },
        None => wholes.len() == 0 && items.len() == 0,
    }
}

/// Chunks that do not complete the tool calls are accounted for.
proof fn lemma_account_chunks(s: StreamView, chunks: Seq<JsonView>, index: usize)
    requires
        rested(s),
        forall|i: int| 0 <= i < chunks.len() ==> !finishes(#[trigger] chunks[i]),
    ensures
        ({
            let p = chunks_step(s, chunks);
            &&& places(p.state)
            &&& p.state.completed == s.completed
            &&& accounts(p.state, all_pieces(chunks), p.events, index)
        }),
    decreases chunks.len(),
{
    if chunks.len() == 0 {
        lemma_found_call(s.active, index);
        assert(chunks_step(s, chunks).events =~= Seq::empty());
    } else {
        let earlier = chunks.drop_last();
        assert forall|i: int| 0 <= i < earlier.len() implies !finishes(#[trigger] earlier[i]) by {
            assert(earlier[i] == chunks[i]);
        }
        lemma_account_chunks(s, earlier, index);
        let before = chunks_step(s, earlier);
        let chunk = chunks.last();
        assert(chunk == chunks[chunks.len() - 1]);
        lemma_chunk_parts(before.state, chunk);
        lemma_account_chunk(before.state, all_pieces(earlier), before.events, index, chunk);
        let b = before_finish(before.state, chunk);
        let t = chunk_step(before.state, chunk).state;
        lemma_account_quiet(
            b.state,
            t,
            all_pieces(chunks),
            before.events + b.events,
            Seq::empty(),
            index,
        );
        assert(before.events + b.events + Seq::<JsonView>::empty() =~= chunks_step(
            s,
            chunks,
        ).events);
    }
}

/// Completing the calls tells of the completion of one of them.
proof fn lemma_completion(
    s: StreamView,
    pieces: Seq<JsonView>,
    events: Seq<JsonView>,
    index: usize,
)
    requires
        places(s),
        accounts(s, pieces, events, index),
    ensures
        tells_completion(closing(s).events + all_done_events(s.active), pieces, index),
        forall|i: int|
            0 <= i < all_done_events(s.active).len() ==> !of_call(added(), place_of(index))(
                #[trigger] all_done_events(s.active)[i],
            ) && !of_call(delta(), place_of(index))(all_done_events(s.active)[i]),
{
    lemma_event_members();
    let place = place_of(index);
    assert forall|i: int| 0 <= i < s.active.len() implies (#[trigger] s.active[i]).output_index
        == place_of(s.active[i].index) by {}
    lemma_done(s.active, index);
    lemma_closing_is_quiet(s, place);
    let a = closing(s).events;
    let b = all_done_events(s.active);
    lemma_picked_concat(a, b, of_call(whole(), place));
    lemma_picked_concat(a, b, of_call(closed(), place));
    assert(picked(a + b, of_call(whole(), place)) =~= picked(b, of_call(whole(), place)));
    assert(picked(a + b, of_call(closed(), place)) =~= picked(b, of_call(closed(), place)));
}

/// While tool calls are being made, whatever the chunks are and however the arguments are cut into
/// pieces: each call is opened once, and the pieces of its arguments are passed on one by one, so
/// that together they are the arguments that the upstream sent for its index. If the stream ends
/// there, each call is completed, with all its arguments.
pub proof fn law_tool_calls_arrive(s: StreamView, chunks: Seq<JsonView>, index: usize)
    requires
        rested(s),
        forall|i: int| 0 <= i < chunks.len() ==> !finishes(#[trigger] chunks[i]),
    ensures
        tells_making(chunks_step(s, chunks).events, all_pieces(chunks), index),
        s.completed.len() == 0 ==> tells_completion(
            end_step(chunks_step(s, chunks).state).events,
            all_pieces(chunks),
            index,
        ),
{
    lemma_account_chunks(s, chunks, index);
    let p = chunks_step(s, chunks);
    if s.completed.len() == 0 {
        lemma_kinds();
        lemma_event_members();
        lemma_completion(p.state, all_pieces(chunks), p.events, index);
        lemma_all_unfinished(p.state.active, p.state.completed);
        let t = closing(p.state).state;
        let e = end_step(p.state).events;
        let done = closing(p.state).events + all_done_events(t.active);
        let last = response_event("response.completed"@, final_response(t));
        assert(e =~= done + seq![last]);
        let place = place_of(index);
        lemma_picked_concat(done, seq![last], of_call(whole(), place));
        lemma_picked_concat(done, seq![last], of_call(closed(), place));
        lemma_picked_one(last, of_call(whole(), place));
        lemma_picked_one(last, of_call(closed(), place));
        assert(picked(e, of_call(whole(), place)) =~= picked(done, of_call(whole(), place)));
        assert(picked(e, of_call(closed(), place)) =~= picked(done, of_call(closed(), place)));
    }
}

/// If none is complete, all are unfinished.
proof fn lemma_all_unfinished(active: Seq<CallView>, completed: Seq<CallView>)
    requires
        completed.len() == 0,
    ensures
        unfinished(active, completed) == active,
    decreases active.len(),
{
    if active.len() > 0 {
        lemma_all_unfinished(active.drop_last(), completed);
        assert(active.drop_last().push(active.last()) =~= active);
    } else {
        assert(active =~= Seq::empty());
    }
}

/// If a chunk tells that the tool calls are complete, the call with each index is completed in the
/// events of that chunk, with all the arguments that the upstream sent for it, and no call is open
/// behind it.
pub proof fn law_tool_calls_are_completed(
    s: StreamView,
    chunks: Seq<JsonView>,
    last: JsonView,
    index: usize,
)
    requires
        rested(s),
        forall|i: int| 0 <= i < chunks.len() ==> !finishes(#[trigger] chunks[i]),
        finishes(last),
    ensures
        ({
            let p = chunks_step(s, chunks);
            let q = chunk_step(p.state, last);
            let pieces = all_pieces(chunks.push(last));
            &&& tells_making(p.events + q.events, pieces, index)
            &&& tells_completion(q.events, pieces, index)
            &&& rested(q.state)
        }),
{
    lemma_account_chunks(s, chunks, index);
    let p = chunks_step(s, chunks);
    let q = chunk_step(p.state, last);
    let pieces = all_pieces(chunks.push(last));
    assert(chunks.push(last).drop_last() =~= chunks);
    lemma_chunk_parts(p.state, last);
    lemma_account_chunk(p.state, all_pieces(chunks), p.events, index, last);
    let b = before_finish(p.state, last);
    lemma_completion(b.state, pieces, p.events + b.events, index);
    let shut = closing(b.state);
    let done = all_done_events(b.state.active);
    let finish = finish_step(b.state);
    assert(finish.events =~= shut.events + done);
    let place = place_of(index);
    lemma_closing_is_quiet(b.state, place);
    // The making is told before the calls are completed.
    lemma_picked_concat(shut.events, done, of_call(added(), place));
    lemma_picked_concat(shut.events, done, of_call(delta(), place));
    lemma_picked_none(done, of_call(added(), place));
    lemma_picked_none(done, of_call(delta(), place));
    lemma_picked_concat(p.events + b.events, finish.events, of_call(added(), place));
    lemma_picked_concat(p.events + b.events, finish.events, of_call(delta(), place));
    assert(p.events + q.events =~= p.events + b.events + finish.events);
    assert(picked(p.events + q.events, of_call(added(), place)) =~= picked(
        p.events + b.events,
        of_call(added(), place),
    ));
    assert(picked(p.events + q.events, of_call(delta(), place)) =~= picked(
        p.events + b.events,
        of_call(delta(), place),
    ));
    // The completion is told behind it.
    lemma_picked_concat(b.events, finish.events, of_call(whole(), place));
    lemma_picked_concat(b.events, finish.events, of_call(closed(), place));
    lemma_no_completion(p.state, last, place);
    assert(picked(q.events, of_call(whole(), place)) =~= picked(
        finish.events,
        of_call(whole(), place),
    ));
    assert(picked(q.events, of_call(closed(), place)) =~= picked(
        finish.events,
        of_call(closed(), place),
    ));
    assert(forall|i: int|
        0 <= i < q.state.completed.len() ==> (#[trigger] q.state.completed[i]).output_index
            == wrapping_sum(1, q.state.completed[i].index));
}

/// Pieces of tool calls complete none of them.
proof fn lemma_pieces_complete_none(s: StreamView, pieces: Seq<JsonView>, place: int)
    ensures
        picked(calls_step(s, pieces).events, of_call(whole(), place)) == Seq::<JsonView>::empty(),
        picked(calls_step(s, pieces).events, of_call(closed(), place)) == Seq::<JsonView>::empty(),
    decreases pieces.len(),
{
    if pieces.len() > 0 {
        lemma_kinds();
        lemma_event_members();
        let before = calls_step(s, pieces.drop_last());
        lemma_pieces_complete_none(s, pieces.drop_last(), place);
        let piece = pieces.last();
        let step = call_step(before.state, piece);
        lemma_closing_is_quiet(before.state, place);
        lemma_picked_concat(before.events, step.events, of_call(whole(), place));
        lemma_picked_concat(before.events, step.events, of_call(closed(), place));
        let k = call_at(before.state.active, call_index(piece));
        if k < before.state.active.len() {
            lemma_picked_none(step.events, of_call(whole(), place));
            lemma_picked_none(step.events, of_call(closed(), place));
        } else {
            let shut = closing(before.state).events;
            let event = step.events.last();
            assert(step.events =~= shut + seq![event]);
            lemma_picked_concat(shut, seq![event], of_call(whole(), place));
            lemma_picked_concat(shut, seq![event], of_call(closed(), place));
            lemma_picked_one(event, of_call(whole(), place));
            lemma_picked_one(event, of_call(closed(), place));
        }
        assert(picked(calls_step(s, pieces).events, of_call(whole(), place)) =~= Seq::empty());
        assert(picked(calls_step(s, pieces).events, of_call(closed(), place)) =~= Seq::empty());
    }
}

/// What a chunk does before it completes the tool calls completes none of them.
proof fn lemma_no_completion(s: StreamView, chunk: JsonView, place: int)
    ensures
        picked(before_finish(s, chunk).events, of_call(whole(), place)) == Seq::<
            JsonView,
        >::empty(),
        picked(before_finish(s, chunk).events, of_call(closed(), place)) == Seq::<
            JsonView,
        >::empty(),
{
    lemma_kinds();
    lemma_event_members();
    lemma_items();
    let b = before_finish(s, chunk);
    let opened = opening(s);
    lemma_picked_none(opened.events, of_call(whole(), place));
    lemma_picked_none(opened.events, of_call(closed(), place));
    match chunk.array_at("choices"@) {
        Some(choices) if choices.len() > 0 => {
            let d = choices[0].get_or("delta"@, JsonView::Object(Map::empty()));
            let told = words_step(opened.state, d);
            lemma_picked_none(told.events, of_call(whole(), place));
            lemma_picked_none(told.events, of_call(closed(), place));
            let rest = match d.array_at("tool_calls"@) {
                Some(calls) => chain(told, calls_step(told.state, calls)),
                None => told,
            };
            if let Some(calls) = d.array_at("tool_calls"@) {
                lemma_pieces_complete_none(told.state, calls, place);
                lemma_picked_concat(
                    told.events,
                    calls_step(told.state, calls).events,
                    of_call(whole(), place),
                );
                lemma_picked_concat(
                    told.events,
                    calls_step(told.state, calls).events,
                    of_call(closed(), place),
                );
            }
            lemma_picked_concat(opened.events, rest.events, of_call(whole(), place));
            lemma_picked_concat(opened.events, rest.events, of_call(closed(), place));
            assert(picked(b.events, of_call(whole(), place)) =~= Seq::empty());
            assert(picked(b.events, of_call(closed(), place)) =~= Seq::empty());
        },
        _ => {},
    }
}

// ── Words ──────────────────────────────────────────────────────────────────

/// The kind of an event with a piece of the text.
spec fn text_delta() -> Seq<char> {
    "response.output_text.delta"@
}

/// The kind of an event with a piece of the reasoning.
spec fn reasoning_delta() -> Seq<char> {
    "response.reasoning_text.delta"@
}

/// The kind of an event that closes the text of the message.
spec fn part_closed() -> Seq<char> {
    "response.content_part.done"@
}

/// Events of a kind about the message.
pub open spec fn of_message(kind: Seq<char>) -> spec_fn(JsonView) -> bool {
    |event: JsonView|
        {
            &&& event.get("type"@) == Some(JsonView::Str(kind))
            &&& member(event, "item"@).get("type"@) == Some(JsonView::Str("message"@))
        }
}

/// Events that hold no words and do not close the message.
spec fn wordless(events: Seq<JsonView>) -> bool {
    forall|i: int|
        0 <= i < events.len() ==> {
            let e = #[trigger] events[i];
            &&& !of_kind(text_delta())(e)
            &&& !of_kind(reasoning_delta())(e)
            &&& !of_kind(part_closed())(e)
            &&& !of_message(closed())(e)
        }
}

/// Nothing of these is picked from such events.
proof fn lemma_wordless(events: Seq<JsonView>)
    requires
        wordless(events),
    ensures
        picked(events, of_kind(text_delta())) == Seq::<JsonView>::empty(),
        picked(events, of_kind(reasoning_delta())) == Seq::<JsonView>::empty(),
        picked(events, of_kind(part_closed())) == Seq::<JsonView>::empty(),
        picked(events, of_message(closed())) == Seq::<JsonView>::empty(),
{
    lemma_picked_none(events, of_kind(text_delta()));
    lemma_picked_none(events, of_kind(reasoning_delta()));
    lemma_picked_none(events, of_kind(part_closed()));
    lemma_picked_none(events, of_message(closed()));
}

/// What is picked of two lists.
proof fn lemma_words_concat(a: Seq<JsonView>, b: Seq<JsonView>)
    ensures
        picked(a + b, of_kind(text_delta())) == picked(a, of_kind(text_delta())) + picked(
            b,
            of_kind(text_delta()),
        ),
        picked(a + b, of_kind(reasoning_delta())) == picked(a, of_kind(reasoning_delta()))
            + picked(b, of_kind(reasoning_delta())),
        picked(a + b, of_kind(part_closed())) == picked(a, of_kind(part_closed())) + picked(
            b,
            of_kind(part_closed()),
        ),
        picked(a + b, of_message(closed())) == picked(a, of_message(closed())) + picked(
            b,
            of_message(closed()),
        ),
{
    lemma_picked_concat(a, b, of_kind(text_delta()));
    lemma_picked_concat(a, b, of_kind(reasoning_delta()));
    lemma_picked_concat(a, b, of_kind(part_closed()));
    lemma_picked_concat(a, b, of_message(closed()));
}

/// What the events of a step tell of words: these pieces of the reasoning and of the text, and the
/// closing of the message with this text, if it is closed.
spec fn tells_words(
    events: Seq<JsonView>,
    id: Seq<char>,
    reasoning: Seq<char>,
    text: Seq<char>,
    closes: Option<Seq<char>>,
) -> bool {
    let texts = picked(events, of_kind(text_delta()));
    let reasonings = picked(events, of_kind(reasoning_delta()));
    let parts = picked(events, of_kind(part_closed()));
    let items = picked(events, of_message(closed()));
    &&& spelled(texts, "delta"@) == text
    &&& spelled(reasonings, "delta"@) == reasoning
    &&& forall|i: int|
        0 <= i < texts.len() ==> (#[trigger] texts[i]).get("item_id"@) == Some(JsonView::Str(id))
    &&& forall|i: int|
        0 <= i < reasonings.len() ==> (#[trigger] reasonings[i]).get("item_id"@) == Some(
            JsonView::Str(id),
        )
    &&& match closes {
        Some(all) => {
            &&& parts == seq![part_event(part_closed(), all)]
            &&& items == seq![
                item_event(closed(), 0, message_item(id, "completed"@, seq![text_part(all)])),
            ]
        },
        None => parts.len() == 0 && items.len() == 0,
    }
}

/// A step after a step tells what both tell.
proof fn lemma_tells_words_concat(
    a: Seq<JsonView>,
    b: Seq<JsonView>,
    id: Seq<char>,
    r1: Seq<char>,
    t1: Seq<char>,
    c1: Option<Seq<char>>,
    r2: Seq<char>,
    t2: Seq<char>,
    c2: Option<Seq<char>>,
)
    requires
        tells_words(a, id, r1, t1, c1),
        tells_words(b, id, r2, t2, c2),
        c1 is None || c2 is None,
    ensures
        tells_words(
            a + b,
            id,
            r1 + r2,
            t1 + t2,
            if c1 is Some {
                c1
            } else {
                c2
            },
        ),
{
    lemma_words_concat(a, b);
    let ta = picked(a, of_kind(text_delta()));
    let tb = picked(b, of_kind(text_delta()));
    let ra = picked(a, of_kind(reasoning_delta()));
    let rb = picked(b, of_kind(reasoning_delta()));
    lemma_spelled_concat(ta, tb, "delta"@);
    lemma_spelled_concat(ra, rb, "delta"@);
    assert forall|i: int| 0 <= i < (ta + tb).len() implies (#[trigger] (ta + tb)[i]).get(
        "item_id"@,
    ) == Some(JsonView::Str(id)) by {
        if i < ta.len() {
            assert((ta + tb)[i] == ta[i]);
        } else {
            assert((ta + tb)[i] == tb[i - ta.len()]);
        }
    }
    assert forall|i: int| 0 <= i < (ra + rb).len() implies (#[trigger] (ra + rb)[i]).get(
        "item_id"@,
    ) == Some(JsonView::Str(id)) by {
        if i < ra.len() {
            assert((ra + rb)[i] == ra[i]);
        } else {
            assert((ra + rb)[i] == rb[i - ra.len()]);
        }
    }
    let pa = picked(a, of_kind(part_closed()));
    let pb = picked(b, of_kind(part_closed()));
    let ia = picked(a, of_message(closed()));
    let ib = picked(b, of_message(closed()));
    if c1 is Some {
        assert(pa + pb =~= pa);
        assert(ia + ib =~= ia);
    } else {
        assert(pa + pb =~= pb);
        assert(ia + ib =~= ib);
    }
}

/// Wordless events tell no words.
proof fn lemma_tells_none(events: Seq<JsonView>, id: Seq<char>)
    requires
        wordless(events),
    ensures
        tells_words(events, id, Seq::empty(), Seq::empty(), None),
{
    lemma_wordless(events);
}

/// What closing the message tells.
proof fn lemma_closing_words(s: StreamView)
    ensures
        tells_words(
            closing(s).events,
            s.msg_id,
            Seq::empty(),
            Seq::empty(),
            if s.msg_closed {
                None
            } else {
                Some(s.full_text)
            },
        ),
{
    lemma_kinds();
    lemma_event_members();
    lemma_items();
    let e = closing(s).events;
    if s.msg_closed {
        lemma_tells_none(e, s.msg_id);
    } else {
        let first = e[0];
        let second = e[1];
        assert(e =~= seq![first, second]);
        assert(e =~= seq![first] + seq![second]);
        lemma_words_concat(seq![first], seq![second]);
        lemma_picked_one(first, of_kind(text_delta()));
        lemma_picked_one(first, of_kind(reasoning_delta()));
        lemma_picked_one(first, of_kind(part_closed()));
        lemma_picked_one(first, of_message(closed()));
        lemma_picked_one(second, of_kind(text_delta()));
        lemma_picked_one(second, of_kind(reasoning_delta()));
        lemma_picked_one(second, of_kind(part_closed()));
        lemma_picked_one(second, of_message(closed()));
        assert(picked(e, of_kind(part_closed())) =~= seq![first]);
        assert(picked(e, of_message(closed())) =~= seq![second]);
        assert(picked(e, of_kind(text_delta())) =~= Seq::empty());
        assert(picked(e, of_kind(reasoning_delta())) =~= Seq::empty());
    }
}

/// What one event with a piece of words tells.
proof fn lemma_piece_words(kind: Seq<char>, id: Seq<char>, text: Seq<char>)
    requires
        kind == text_delta() || kind == reasoning_delta(),
    ensures
        tells_words(
            seq![delta_event(kind, id, text)],
            id,
            if kind == reasoning_delta() {
                text
            } else {
                Seq::empty()
            },
            if kind == text_delta() {
                text
            } else {
                Seq::empty()
            },
            None,
        ),
{
    lemma_kinds();
    lemma_event_members();
    let e = delta_event(kind, id, text);
    lemma_picked_one(e, of_kind(text_delta()));
    lemma_picked_one(e, of_kind(reasoning_delta()));
    lemma_picked_one(e, of_kind(part_closed()));
    lemma_picked_one(e, of_message(closed()));
    lemma_spelled_one(e, "delta"@);
    assert(spelled(Seq::empty(), "delta"@) =~= Seq::<char>::empty());
}

/// What pieces of words tell.
proof fn lemma_words_step(s: StreamView, d: JsonView)
    ensures
        tells_words(
            words_step(s, d).events,
            s.msg_id,
            words(d, "reasoning_content"@),
            words(d, "content"@),
            None,
        ),
        words_step(s, d).state == (StreamView {
            full_text: s.full_text + words(d, "content"@),
            ..s
        }),
{
    let a = reasoning_step(s, d);
    let b = text_step(a.state, d);
    let r = words(d, "reasoning_content"@);
    let t = words(d, "content"@);
    assert(wordless(Seq::empty()));
    lemma_tells_none(Seq::empty(), s.msg_id);
    lemma_kinds();
    if r.len() == 0 {
        assert(r =~= Seq::empty());
    } else {
        lemma_piece_words(reasoning_delta(), s.msg_id, r);
    }
    if t.len() == 0 {
        assert(t =~= Seq::empty());
        assert(s.full_text + t =~= s.full_text);
    } else {
        lemma_piece_words(text_delta(), s.msg_id, t);
    }
    lemma_tells_words_concat(
        a.events,
        b.events,
        s.msg_id,
        r,
        Seq::empty(),
        None,
        Seq::empty(),
        t,
        None,
    );
    assert(r + Seq::<char>::empty() =~= r);
    assert(Seq::<char>::empty() + t =~= t);
}

/// What pieces of tool calls tell: the closing of the message, if it is open.
proof fn lemma_calls_words(s: StreamView, calls: Seq<JsonView>)
    requires
        places(s),
    ensures
        ({
            let p = calls_step(s, calls);
            let closes = !s.msg_closed && calls.len() > 0;
            &&& tells_words(
                p.events,
                s.msg_id,
                Seq::empty(),
                Seq::empty(),
                if closes {
                    Some(s.full_text)
                } else {
                    None
                },
            )
            &&& p.state.msg_closed == (s.msg_closed || closes)
            &&& p.state.full_text == s.full_text
            &&& p.state.msg_id == s.msg_id
        }),
    decreases calls.len(),
{
    let nothing = Seq::<char>::empty();
    assert(nothing + nothing =~= nothing);
    if calls.len() == 0 {
        assert(wordless(Seq::empty()));
        lemma_tells_none(Seq::empty(), s.msg_id);
    } else {
        lemma_kinds();
        lemma_event_members();
        let earlier = calls.drop_last();
        lemma_calls_words(s, earlier);
        lemma_calls_keep_places(s, earlier);
        let before = calls_step(s, earlier);
        let b = before.state;
        let piece = calls.last();
        let step = call_step(b, piece);
        lemma_found_call(b.active, call_index(piece));
        let k = call_at(b.active, call_index(piece));
        if k < b.active.len() {
            lemma_tells_none(step.events, s.msg_id);
        } else {
            lemma_closing_words(b);
            let shut = closing(b).events;
            let event = step.events.last();
            assert(step.events =~= shut + seq![event]);
            lemma_tells_none(seq![event], s.msg_id);
            lemma_tells_words_concat(
                shut,
                seq![event],
                s.msg_id,
                nothing,
                nothing,
                if b.msg_closed {
                    None
                } else {
                    Some(b.full_text)
                },
                nothing,
                nothing,
                None,
            );
        }
        lemma_tells_words_concat(
            before.events,
            step.events,
            s.msg_id,
            nothing,
            nothing,
            if !s.msg_closed && earlier.len() > 0 {
                Some(s.full_text)
            } else {
                None
            },
            nothing,
            nothing,
            if b.msg_closed {
                None
            } else {
                Some(b.full_text)
            },
        );
    }
}

/// Completing tool calls tells no words.
proof fn lemma_done_words(calls: Seq<CallView>)
    ensures
        wordless(all_done_events(calls)),
    decreases calls.len(),
{
    if calls.len() > 0 {
        lemma_kinds();
        lemma_event_members();
        lemma_done_words(calls.drop_last());
        let a = all_done_events(calls.drop_last());
        let b = done_events(calls.last());
        assert forall|i: int| 0 <= i < (a + b).len() implies {
            let e = #[trigger] (a + b)[i];
            &&& !of_kind(text_delta())(e)
            &&& !of_kind(reasoning_delta())(e)
            &&& !of_kind(part_closed())(e)
            &&& !of_message(closed())(e)
        } by {
            if i < a.len() {
                assert((a + b)[i] == a[i]);
            } else {
                assert((a + b)[i] == b[i - a.len()]);
            }
        }
    }
}

/// What a chunk tells of words.
proof fn lemma_chunk_words(s: StreamView, chunk: JsonView)
    requires
        places(s),
    ensures
        ({
            let d = member(first_choice(chunk), "delta"@);
            let p = chunk_step(s, chunk);
            let all = s.full_text + words(d, "content"@);
            let closes = !s.msg_closed && (pieces_of(chunk).len() > 0 || finishes(chunk));
            &&& tells_words(
                p.events,
                s.msg_id,
                words(d, "reasoning_content"@),
                words(d, "content"@),
                if closes {
                    Some(all)
                } else {
                    None
                },
            )
            &&& p.state.msg_closed == (s.msg_closed || closes)
            &&& p.state.full_text == all
            &&& p.state.msg_id == s.msg_id
        }),
{
    lemma_kinds();
    lemma_event_members();
    lemma_items();
    lemma_chunk_parts(s, chunk);
    let nothing = Seq::<char>::empty();
    let dd = member(first_choice(chunk), "delta"@);
    let r = words(dd, "reasoning_content"@);
    let t = words(dd, "content"@);
    assert(nothing + nothing =~= nothing);
    assert(nothing + r =~= r);
    assert(nothing + t =~= t);
    assert(r + nothing =~= r);
    assert(t + nothing =~= t);
    assert(s.full_text + nothing =~= s.full_text);
    let opened = opening(s);
    lemma_tells_none(opened.events, s.msg_id);
    let b = before_finish(s, chunk);
    match chunk.array_at("choices"@) {
        Some(choices) if choices.len() > 0 => {
            let d = choices[0].get_or("delta"@, JsonView::Object(Map::empty()));
            assert(words(d, "reasoning_content"@) =~= r);
            assert(words(d, "content"@) =~= t);
            let told = words_step(opened.state, d);
            lemma_words_step(opened.state, d);
            let pieces = pieces_of(chunk);
            let rest = match d.array_at("tool_calls"@) {
                Some(calls) => chain(told, calls_step(told.state, calls)),
                None => told,
            };
            let shut = if !s.msg_closed && pieces.len() > 0 {
                Some(s.full_text + t)
            } else {
                None
            };
            if let Some(calls) = d.array_at("tool_calls"@) {
                assert(pieces == calls);
                lemma_calls_words(told.state, calls);
                lemma_tells_words_concat(
                    told.events,
                    calls_step(told.state, calls).events,
                    s.msg_id,
                    r,
                    t,
                    None,
                    nothing,
                    nothing,
                    shut,
                );
            } else {
                assert(pieces =~= Seq::empty());
            }
            lemma_tells_words_concat(
                opened.events,
                rest.events,
                s.msg_id,
                nothing,
                nothing,
                None,
                r,
                t,
                shut,
            );
            if finishes(chunk) {
                let c = b.state;
                lemma_closing_words(c);
                lemma_done_words(c.active);
                lemma_tells_none(all_done_events(c.active), s.msg_id);
                let own = if c.msg_closed {
                    None
                } else {
                    Some(c.full_text)
                };
                lemma_tells_words_concat(
                    closing(c).events,
                    all_done_events(c.active),
                    s.msg_id,
                    nothing,
                    nothing,
                    own,
                    nothing,
                    nothing,
                    None,
                );
                assert(finish_step(c).events =~= closing(c).events + all_done_events(c.active));
                lemma_tells_words_concat(
                    b.events,
                    finish_step(c).events,
                    s.msg_id,
                    r,
                    t,
                    shut,
                    nothing,
                    nothing,
                    own,
                );
            }
        },
        _ => {
            assert(r =~= nothing);
            assert(t =~= nothing);
            assert(pieces_of(chunk) =~= Seq::empty());
        },
    }
}

/// What chunks carry of the reasoning and of the text is passed on, piece by piece, as events
/// about the message: together the pieces are what the upstream sent, and so is the text that is
/// kept.
pub proof fn law_words_arrive(s: StreamView, chunks: Seq<JsonView>)
    requires
        places(s),
    ensures
        ({
            let p = chunks_step(s, chunks);
            let texts = picked(p.events, of_kind("response.output_text.delta"@));
            let reasonings = picked(p.events, of_kind("response.reasoning_text.delta"@));
            &&& spelled(texts, "delta"@) == carried_text(chunks)
            &&& spelled(reasonings, "delta"@) == carried_reasoning(chunks)
            &&& forall|i: int|
                0 <= i < texts.len() ==> (#[trigger] texts[i]).get("item_id"@) == Some(
                    JsonView::Str(s.msg_id),
                )
            &&& forall|i: int|
                0 <= i < reasonings.len() ==> (#[trigger] reasonings[i]).get("item_id"@) == Some(
                    JsonView::Str(s.msg_id),
                )
            &&& p.state.full_text == s.full_text + carried_text(chunks)
            &&& p.state.msg_id == s.msg_id
            &&& places(p.state)
        }),
    decreases chunks.len(),
{
    if chunks.len() == 0 {
        assert(s.full_text + carried_text(chunks) =~= s.full_text);
        assert(chunks_step(s, chunks).events =~= Seq::empty());
        assert(wordless(Seq::empty()));
        lemma_wordless(Seq::empty());
    } else {
        let earlier = chunks.drop_last();
        law_words_arrive(s, earlier);
        let before = chunks_step(s, earlier);
        let chunk = chunks.last();
        lemma_chunk_words(before.state, chunk);
        law_places_are_kept(before.state, chunk);
        let step = chunk_step(before.state, chunk);
        lemma_words_concat(before.events, step.events);
        let ta = picked(before.events, of_kind(text_delta()));
        let tb = picked(step.events, of_kind(text_delta()));
        let ra = picked(before.events, of_kind(reasoning_delta()));
        let rb = picked(step.events, of_kind(reasoning_delta()));
        lemma_spelled_concat(ta, tb, "delta"@);
        lemma_spelled_concat(ra, rb, "delta"@);
        let d = member(first_choice(chunk), "delta"@);
        assert(s.full_text + carried_text(chunks) =~= s.full_text + carried_text(earlier) + words(
            d,
            "content"@,
        ));
        assert forall|i: int| 0 <= i < (ta + tb).len() implies (#[trigger] (ta + tb)[i]).get(
            "item_id"@,
        ) == Some(JsonView::Str(s.msg_id)) by {
            if i < ta.len() {
                assert((ta + tb)[i] == ta[i]);
            } else {
                assert((ta + tb)[i] == tb[i - ta.len()]);
            }
        }
        assert forall|i: int| 0 <= i < (ra + rb).len() implies (#[trigger] (ra + rb)[i]).get(
            "item_id"@,
        ) == Some(JsonView::Str(s.msg_id)) by {
            if i < ra.len() {
                assert((ra + rb)[i] == ra[i]);
            } else {
                assert((ra + rb)[i] == rb[i - ra.len()]);
            }
        }
    }
}

/// The events close the message, once, with this text.
pub open spec fn closes_message(events: Seq<JsonView>, id: Seq<char>, text: Seq<char>) -> bool {
    let parts = picked(events, of_kind("response.content_part.done"@));
    let items = picked(events, of_message("response.output_item.done"@));
    &&& parts.len() == 1
    &&& is_output_text(member(parts[0], "part"@), text)
    &&& items.len() == 1
    &&& items[0].get("output_index"@) == Some(JsonView::Int(0))
    &&& is_message(member(items[0], "item"@), id, "completed"@, seq![text])
}

/// The events do not close the message.
pub open spec fn leaves_message(events: Seq<JsonView>) -> bool {
    let parts = picked(events, of_kind("response.content_part.done"@));
    let items = picked(events, of_message("response.output_item.done"@));
    parts.len() == 0 && items.len() == 0
}

/// What of the closing is told raw.
proof fn lemma_closes(
    events: Seq<JsonView>,
    id: Seq<char>,
    r: Seq<char>,
    t: Seq<char>,
    closes: Option<Seq<char>>,
)
    requires
        tells_words(events, id, r, t, closes),
    ensures
        match closes {
            Some(all) => closes_message(events, id, all),
            None => leaves_message(events),
        },
{
    lemma_event_members();
    lemma_items();
}

/// The message stays open until a piece of a tool call arrives, or the end of the tool calls, or
/// the end of the stream; then it is closed, once, with all the text that the upstream sent up to
/// there.
pub proof fn law_message_is_closed_with_its_text(
    s: StreamView,
    chunks: Seq<JsonView>,
    chunk: JsonView,
)
    requires
        rested(s),
        !s.msg_closed,
        s.full_text.len() == 0,
        forall|i: int|
            0 <= i < chunks.len() ==> pieces_of(#[trigger] chunks[i]).len() == 0 && !finishes(
                chunks[i],
            ),
    ensures
        ({
            let p = chunks_step(s, chunks);
            let q = chunk_step(p.state, chunk);
            &&& !p.state.msg_closed
            &&& leaves_message(p.events)
            &&& if pieces_of(chunk).len() > 0 || finishes(chunk) {
                closes_message(q.events, s.msg_id, carried_text(chunks.push(chunk)))
            } else {
                leaves_message(q.events)
            }
            &&& closes_message(end_step(p.state).events, s.msg_id, carried_text(chunks))
        }),
{
    lemma_stays_open(s, chunks);
    let p = chunks_step(s, chunks);
    law_words_arrive(s, chunks);
    assert(s.full_text + carried_text(chunks) =~= carried_text(chunks));
    lemma_chunk_words(p.state, chunk);
    assert(chunks.push(chunk).drop_last() =~= chunks);
    let d = member(first_choice(chunk), "delta"@);
    lemma_closes(
        chunk_step(p.state, chunk).events,
        s.msg_id,
        words(d, "reasoning_content"@),
        words(d, "content"@),
        if pieces_of(chunk).len() > 0 || finishes(chunk) {
            Some(carried_text(chunks.push(chunk)))
        } else {
            None
        },
    );
    lemma_end_words(p.state);
    lemma_closes(
        end_step(p.state).events,
        s.msg_id,
        Seq::empty(),
        Seq::empty(),
        Some(carried_text(chunks)),
    );
}

/// What the end of a stream tells of words.
proof fn lemma_end_words(s: StreamView)
    ensures
        tells_words(
            end_step(s).events,
            s.msg_id,
            Seq::empty(),
            Seq::empty(),
            if s.msg_closed {
                None
            } else {
                Some(s.full_text)
            },
        ),
{
    lemma_kinds();
    lemma_event_members();
    let nothing = Seq::<char>::empty();
    assert(nothing + nothing =~= nothing);
    let shut = closing(s);
    let t = shut.state;
    let done = all_done_events(unfinished(t.active, t.completed));
    let last = response_event("response.completed"@, final_response(t));
    lemma_closing_words(s);
    lemma_done_words(unfinished(t.active, t.completed));
    assert forall|i: int| 0 <= i < done.push(last).len() implies {
        let e = #[trigger] done.push(last)[i];
        &&& !of_kind(text_delta())(e)
        &&& !of_kind(reasoning_delta())(e)
        &&& !of_kind(part_closed())(e)
        &&& !of_message(closed())(e)
    } by {
        if i < done.len() {
            assert(done.push(last)[i] == done[i]);
        }
    }
    lemma_tells_none(done.push(last), s.msg_id);
    lemma_tells_words_concat(
        shut.events,
        done.push(last),
        s.msg_id,
        nothing,
        nothing,
        if s.msg_closed {
            None
        } else {
            Some(s.full_text)
        },
        nothing,
        nothing,
        None,
    );
}

/// Without pieces of tool calls the message stays open.
proof fn lemma_stays_open(s: StreamView, chunks: Seq<JsonView>)
    requires
        rested(s),
        !s.msg_closed,
        forall|i: int|
            0 <= i < chunks.len() ==> pieces_of(#[trigger] chunks[i]).len() == 0 && !finishes(
                chunks[i],
            ),
    ensures
        !chunks_step(s, chunks).state.msg_closed,
        leaves_message(chunks_step(s, chunks).events),
    decreases chunks.len(),
{
    if chunks.len() == 0 {
        assert(chunks_step(s, chunks).events =~= Seq::empty());
        assert(wordless(Seq::empty()));
        lemma_wordless(Seq::empty());
    } else {
        let earlier = chunks.drop_last();
        assert forall|i: int| 0 <= i < earlier.len() implies pieces_of(
            #[trigger] earlier[i],
        ).len() == 0 && !finishes(earlier[i]) by {
            assert(earlier[i] == chunks[i]);
        }
        lemma_stays_open(s, earlier);
        law_words_arrive(s, earlier);
        let chunk = chunks.last();
        assert(chunk == chunks[chunks.len() - 1]);
        let before = chunks_step(s, earlier);
        lemma_chunk_words(before.state, chunk);
        lemma_words_concat(before.events, chunk_step(before.state, chunk).events);
    }
}

// ── The response as a whole ────────────────────────────────────────────────

/// A number of tokens that the last chunk that reports a usage reports, or zero if none does.
pub open spec fn last_count(chunks: Seq<JsonView>, key: Seq<char>) -> u64
    decreases chunks.len(),
{
    if chunks.len() == 0 {
        0
    } else {
        match chunks.last().get("usage"@) {
            Some(usage) => match usage.get(key) {
                Some(JsonView::Int(n)) if 0 <= n <= u64::MAX => n as u64,
                _ => 0,
            },
            None => last_count(chunks.drop_last(), key),
        }
    }
}

/// What chunks leave as it is, and the usage that they report.
proof fn lemma_chunks_keep(s: StreamView, chunks: Seq<JsonView>)
    requires
        s.total_input == 0,
        s.total_output == 0,
    ensures
        ({
            let t = chunks_step(s, chunks).state;
            &&& t.model == s.model
            &&& t.msg_id == s.msg_id
            &&& t.resp_id == s.resp_id
            &&& t.created == s.created
            &&& t.total_input == last_count(chunks, "prompt_tokens"@)
            &&& t.total_output == last_count(chunks, "completion_tokens"@)
        }),
    decreases chunks.len(),
{
    if chunks.len() > 0 {
        lemma_chunks_keep(s, chunks.drop_last());
        let b = chunks_step(s, chunks.drop_last()).state;
        let chunk = chunks.last();
        law_text_is_kept(b, chunk);
        lemma_chunk_counts(b, chunk);
    }
}

/// Only the usage of a chunk changes the numbers of tokens.
proof fn lemma_chunk_counts(s: StreamView, chunk: JsonView)
    ensures
        ({
            let t = chunk_step(s, chunk).state;
            match chunk.get("usage"@) {
                Some(usage) => {
                    &&& t.total_input == usage.count_at("prompt_tokens"@)
                    &&& t.total_output == usage.count_at("completion_tokens"@)
                },
                None => t.total_input == s.total_input && t.total_output == s.total_output,
            }
        }),
{
    lemma_chunk_parts(s, chunk);
    let b = before_finish(s, chunk);
    match chunk.array_at("choices"@) {
        Some(choices) if choices.len() > 0 => {
            let d = choices[0].get_or("delta"@, JsonView::Object(Map::empty()));
            let told = words_step(opening(s).state, d);
            if let Some(calls) = d.array_at("tool_calls"@) {
                lemma_calls_keep_counts(told.state, calls);
            }
        },
        _ => {},
    }
}

/// Pieces of tool calls leave the numbers of tokens as they are.
proof fn lemma_calls_keep_counts(s: StreamView, calls: Seq<JsonView>)
    ensures
        calls_step(s, calls).state.total_input == s.total_input,
        calls_step(s, calls).state.total_output == s.total_output,
    decreases calls.len(),
{
    if calls.len() > 0 {
        lemma_calls_keep_counts(s, calls.drop_last());
    }
}

/// The response at the end of a stream, as its last event tells it.
pub open spec fn told_response(s: StreamView) -> JsonView {
    member(end_step(s).events.last(), "response"@)
}

/// The response at the end of a stream is the completed one that was announced: its identifier,
/// its time and its model are those of the stream; it counts the tokens that the upstream last
/// reported, and in all the sum of both, modulo 2^64.
pub proof fn law_final_frame(
    model: Seq<char>,
    msg_id: Seq<char>,
    resp_id: Seq<char>,
    created: u64,
    chunks: Seq<JsonView>,
)
    ensures
        ({
            let s = chunks_step(fresh(model, msg_id, resp_id, created), chunks).state;
            let r = told_response(s);
            let input = last_count(chunks, "prompt_tokens"@);
            let output = last_count(chunks, "completion_tokens"@);
            let usage = member(r, "usage"@);
            &&& end_step(s).events.last().get("type"@) == Some(
                JsonView::Str("response.completed"@),
            )
            &&& r.get("id"@) == Some(JsonView::Str(resp_id))
            &&& r.get("object"@) == Some(JsonView::Str("response"@))
            &&& r.get("status"@) == Some(JsonView::Str("completed"@))
            &&& r.get("created_at"@) == Some(JsonView::Int(created as int))
            &&& r.get("model"@) == Some(JsonView::Str(model))
            &&& usual_members(r)
            &&& usage.get("input_tokens"@) == Some(JsonView::Int(input as int))
            &&& usage.get("output_tokens"@) == Some(JsonView::Int(output as int))
            &&& usage.get("total_tokens"@) == Some(
                JsonView::Int(
                    if input + output <= u64::MAX {
                        input + output
                    } else {
                        input + output - 0x1_0000_0000_0000_0000
                    },
                ),
            )
        }),
{
    let s0 = fresh(model, msg_id, resp_id, created);
    lemma_chunks_keep(s0, chunks);
    let s = chunks_step(s0, chunks).state;
    lemma_final(s);
    assert(0x1_0000_0000_0000_0000 == u64::MAX + 1);
}

/// The members of the final response.
proof fn lemma_final(s: StreamView)
    ensures
        ({
            let t = closing(s).state;
            let r = told_response(s);
            let usage = member(r, "usage"@);
            &&& end_step(s).events.last() == response_event(
                "response.completed"@,
                final_response(t),
            )
            &&& end_step(s).events.last().get("type"@) == Some(
                JsonView::Str("response.completed"@),
            )
            &&& r == final_response(t)
            &&& r.str_at("id"@) == Some(s.resp_id)
            &&& r.str_at("object"@) == Some("response"@)
            &&& r.str_at("status"@) == Some("completed"@)
            &&& r.str_at("model"@) == Some(s.model)
            &&& r.get("created_at"@) == Some(JsonView::Int(s.created as int))
            &&& r.array_at("output"@) == Some(output_items(t))
            &&& usual_members(r)
            &&& usage.get("input_tokens"@) == Some(JsonView::Int(s.total_input as int))
            &&& usage.get("output_tokens"@) == Some(JsonView::Int(s.total_output as int))
            &&& usage.get("total_tokens"@) == Some(
                JsonView::Int(token_sum(s.total_input, s.total_output)),
            )
        }),
{
    lemma_event_members();
    let t = closing(s).state;
    let usage = token_usage(
        JsonView::Int(t.total_input as int),
        JsonView::Int(t.total_output as int),
        JsonView::Int(token_sum(t.total_input, t.total_output)),
    );
    lemma_completed_response(t.resp_id, t.created, t.model, output_items(t), usage);
    assert(usage.get("input_tokens"@) == Some(JsonView::Int(t.total_input as int)) && usage.get(
        "output_tokens"@,
    ) == Some(JsonView::Int(t.total_output as int)) && usage.get("total_tokens"@) == Some(
        JsonView::Int(token_sum(t.total_input, t.total_output)),
    )) by {
        reveal_strlit("input_tokens");
        reveal_strlit("output_tokens");
        reveal_strlit("total_tokens");
        assert("input_tokens"@.len() == 12);
        assert("output_tokens"@.len() == 13);
        assert("total_tokens"@.len() == 12);
        assert("input_tokens"@[0] == 'i');
        assert("total_tokens"@[0] == 't');
    }
}

/// The indices of tool calls, in the order of their first pieces.
pub open spec fn indices_of(pieces: Seq<JsonView>) -> Seq<usize>
    decreases pieces.len(),
{
    if pieces.len() == 0 {
        Seq::empty()
    } else {
        let before = indices_of(pieces.drop_last());
        if before.contains(piece_index(pieces.last())) {
            before
        } else {
            before.push(piece_index(pieces.last()))
        }
    }
}

/// The output holds the message, if there is text, and then the tool calls, one item for each
/// index that the upstream used, in the order in which it first used them: each with the name and
/// the identifier in its first piece, and with all its arguments.
pub open spec fn holds_all(
    output: Seq<JsonView>,
    id: Seq<char>,
    text: Seq<char>,
    pieces: Seq<JsonView>,
) -> bool {
    let offset: int = if text.len() > 0 {
        1
    } else {
        0
    };
    let indices = indices_of(pieces);
    &&& output.len() == offset + indices.len()
    &&& text.len() > 0 ==> is_message(output[0], id, "completed"@, seq![text])
    &&& forall|k: int|
        0 <= k < indices.len() ==> is_call_of(
            output[offset + k],
            pieces,
            #[trigger] indices[k],
        )
}

/// An item is the tool call with this index, complete.
pub open spec fn is_call_of(item: JsonView, pieces: Seq<JsonView>, index: usize) -> bool {
    &&& first_piece(pieces, index) is Some
    &&& {
        let first = first_piece(pieces, index)->0;
        is_call(
            item,
            words(first, "id"@),
            words(member(first, "function"@), "name"@),
            carried_arguments(pieces, index),
            "completed"@,
        )
    }
}

/// The calls have these indices, in this order.
spec fn ordered(calls: Seq<CallView>, indices: Seq<usize>) -> bool {
    &&& calls.len() == indices.len()
    &&& forall|k: int| 0 <= k < calls.len() ==> (#[trigger] calls[k]).index == indices[k]
}

/// Pieces open calls in their order.
proof fn lemma_ordered(s: StreamView, pieces: Seq<JsonView>, more: Seq<JsonView>)
    requires
        ordered(s.active, indices_of(pieces)),
    ensures
        ordered(calls_step(s, more).state.active, indices_of(pieces + more)),
    decreases more.len(),
{
    if more.len() == 0 {
        assert(pieces + more =~= pieces);
    } else {
        let earlier = more.drop_last();
        lemma_ordered(s, pieces, earlier);
        let b = calls_step(s, earlier).state;
        let piece = more.last();
        lemma_piece(piece);
        assert((pieces + more).drop_last() =~= pieces + earlier);
        let indices = indices_of(pieces + earlier);
        lemma_found_call(b.active, call_index(piece));
        let k = call_at(b.active, call_index(piece));
        if k < b.active.len() {
            assert(indices[k] == piece_index(piece));
        } else if indices.contains(piece_index(piece)) {
            let i = choose|i: int| 0 <= i < indices.len() && indices[i] == piece_index(piece);
            assert(b.active[i].index == indices[i]);
        }
    }
}

/// Chunks open calls in the order of the pieces that they carry.
proof fn lemma_chunks_ordered(s: StreamView, chunks: Seq<JsonView>)
    requires
        rested(s),
        forall|i: int| 0 <= i < chunks.len() ==> !finishes(#[trigger] chunks[i]),
    ensures
        ordered(chunks_step(s, chunks).state.active, indices_of(all_pieces(chunks))),
    decreases chunks.len(),
{
    if chunks.len() > 0 {
        let earlier = chunks.drop_last();
        assert forall|i: int| 0 <= i < earlier.len() implies !finishes(#[trigger] earlier[i]) by {
            assert(earlier[i] == chunks[i]);
        }
        lemma_chunks_ordered(s, earlier);
        let b = chunks_step(s, earlier).state;
        let chunk = chunks.last();
        assert(chunk == chunks[chunks.len() - 1]);
        lemma_chunk_parts(b, chunk);
        lemma_chunk_ordered(b, all_pieces(earlier), chunk);
    }
}

/// A chunk opens calls in the order of the pieces that it carries.
proof fn lemma_chunk_ordered(s: StreamView, pieces: Seq<JsonView>, chunk: JsonView)
    requires
        ordered(s.active, indices_of(pieces)),
    ensures
        ordered(before_finish(s, chunk).state.active, indices_of(pieces + pieces_of(chunk))),
{
    match chunk.array_at("choices"@) {
        Some(choices) if choices.len() > 0 => {
            let d = choices[0].get_or("delta"@, JsonView::Object(Map::empty()));
            let told = words_step(opening(s).state, d);
            match d.array_at("tool_calls"@) {
                Some(calls) => {
                    assert(pieces_of(chunk) == calls);
                    lemma_ordered(told.state, pieces, calls);
                },
                None => {
                    assert(pieces + pieces_of(chunk) =~= pieces);
                },
            }
        },
        _ => {
            assert(pieces + pieces_of(chunk) =~= pieces);
        },
    }
}

/// The items for these calls are what is accounted for.
proof fn lemma_items_account(
    s: StreamView,
    calls: Seq<CallView>,
    id: Seq<char>,
    text: Seq<char>,
    pieces: Seq<JsonView>,
    events: Seq<JsonView>,
)
    requires
        places(s),
        s.active == calls,
        ordered(calls, indices_of(pieces)),
        forall|index: usize| #[trigger] accounts(s, pieces, events, index),
    ensures
        ({
            let items = calls.map_values(|c: CallView| done_item(c));
            let output = if text.len() == 0 {
                items
            } else {
                seq![message_item(id, "completed"@, seq![text_part(text)])] + items
            };
            holds_all(output, id, text, pieces)
        }),
{
    lemma_items();
    lemma_event_members();
    let items = calls.map_values(|c: CallView| done_item(c));
    let offset: int = if text.len() > 0 {
        1
    } else {
        0
    };
    let output = if text.len() == 0 {
        items
    } else {
        seq![message_item(id, "completed"@, seq![text_part(text)])] + items
    };
    let indices = indices_of(pieces);
    assert forall|k: int| 0 <= k < indices.len() implies is_call_of(
        output[offset + k],
        pieces,
        #[trigger] indices[k],
    ) by {
        let index = indices[k];
        assert(calls[k].index == index);
        assert(output[offset + k] == done_item(calls[k]));
        assert(accounts(s, pieces, events, index));
        assert forall|j: int| 0 <= j < k implies (#[trigger] calls[j]).index != index by {}
        lemma_call_at(calls, index, k);
    }
}

/// The response at the end of a stream holds all that the upstream sent: the whole text, and every
/// tool call with all its arguments, whether or not the upstream told that the calls are complete.
pub proof fn law_final_output(
    model: Seq<char>,
    msg_id: Seq<char>,
    resp_id: Seq<char>,
    created: u64,
    chunks: Seq<JsonView>,
    last: JsonView,
)
    requires
        forall|i: int| 0 <= i < chunks.len() ==> !finishes(#[trigger] chunks[i]),
    ensures
        ({
            let p = chunks_step(fresh(model, msg_id, resp_id, created), chunks);
            let q = chunk_step(p.state, last);
            let all = chunks.push(last);
            &&& told_response(p.state).get("output"@) matches Some(JsonView::Array(output))
                && holds_all(output, msg_id, carried_text(chunks), all_pieces(chunks))
            &&& told_response(q.state).get("output"@) matches Some(JsonView::Array(output))
                && holds_all(output, msg_id, carried_text(all), all_pieces(all))
        }),
{
    let s = fresh(model, msg_id, resp_id, created);
    let p = chunks_step(s, chunks);
    lemma_output(s, chunks);
    if finishes(last) {
        let all = chunks.push(last);
        assert(all.drop_last() =~= chunks);
        lemma_chunk_parts(p.state, last);
        let q = chunk_step(p.state, last);
        let b = before_finish(p.state, last);
        lemma_final(q.state);
        law_words_arrive(s, chunks);
        lemma_chunk_words(p.state, last);
        assert(s.full_text + carried_text(chunks) =~= carried_text(chunks));
        lemma_chunks_ordered(s, chunks);
        lemma_chunk_ordered(p.state, all_pieces(chunks), last);
        assert forall|index: usize| #[trigger] accounts(
            b.state,
            all_pieces(all),
            p.events + b.events,
            index,
        ) by {
            lemma_account_chunks(s, chunks, index);
            lemma_account_chunk(p.state, all_pieces(chunks), p.events, index, last);
        }
        lemma_account_chunks(s, chunks, 0);
        lemma_account_chunk(p.state, all_pieces(chunks), p.events, 0, last);
        lemma_items_account(
            b.state,
            b.state.active,
            msg_id,
            carried_text(all),
            all_pieces(all),
            p.events + b.events,
        );
        let t = closing(q.state).state;
        assert(t.completed == b.state.active);
        assert(unfinished(t.active, t.completed) =~= Seq::empty());
        assert(t.completed + unfinished(t.active, t.completed) =~= b.state.active);
    } else {
        let all = chunks.push(last);
        assert(all.drop_last() =~= chunks);
        assert forall|i: int| 0 <= i < all.len() implies !finishes(#[trigger] all[i]) by {
            if i < chunks.len() {
                assert(all[i] == chunks[i]);
            }
        }
        lemma_output(s, all);
    }
}

/// The output of a stream whose tool calls were not told to be complete.
proof fn lemma_output(s: StreamView, chunks: Seq<JsonView>)
    requires
        rested(s),
        s.completed.len() == 0,
        s.full_text.len() == 0,
        forall|i: int| 0 <= i < chunks.len() ==> !finishes(#[trigger] chunks[i]),
    ensures
        told_response(chunks_step(s, chunks).state).get("output"@) matches Some(
            JsonView::Array(output),
        ) && holds_all(output, s.msg_id, carried_text(chunks), all_pieces(chunks)),
{
    let p = chunks_step(s, chunks);
    lemma_final(p.state);
    law_words_arrive(s, chunks);
    assert(s.full_text + carried_text(chunks) =~= carried_text(chunks));
    lemma_chunks_ordered(s, chunks);
    assert forall|index: usize| #[trigger] accounts(
        p.state,
        all_pieces(chunks),
        p.events,
        index,
    ) by {
        lemma_account_chunks(s, chunks, index);
    }
    lemma_account_chunks(s, chunks, 0);
    lemma_items_account(
        p.state,
        p.state.active,
        s.msg_id,
        carried_text(chunks),
        all_pieces(chunks),
        p.events,
    );
    let t = closing(p.state).state;
    lemma_all_unfinished(t.active, t.completed);
    assert(t.completed + unfinished(t.active, t.completed) =~= t.active);
}

/// The first chunk of a stream announces the response and its message: the response that is
/// created and then in progress has the identifier, the time and the model of the stream and no
/// output yet, the message has its own identifier and no content yet, and its text is empty.
pub proof fn law_stream_is_announced(s: StreamView, chunk: JsonView)
    requires
        !s.headers_emitted,
    ensures
        ({
            let e = chunk_step(s, chunk).events;
            &&& e.len() >= 4
            &&& e[0].get("type"@) == Some(JsonView::Str("response.created"@))
            &&& announces(member(e[0], "response"@), s.resp_id, s.created, s.model)
            &&& e[1].get("type"@) == Some(JsonView::Str("response.in_progress"@))
            &&& announces(member(e[1], "response"@), s.resp_id, s.created, s.model)
            &&& e[2].get("type"@) == Some(JsonView::Str("response.output_item.added"@))
            &&& e[2].get("output_index"@) == Some(JsonView::Int(0))
            &&& is_message(member(e[2], "item"@), s.msg_id, "in_progress"@, Seq::empty())
            &&& e[3].get("type"@) == Some(JsonView::Str("response.content_part.added"@))
            &&& e[3].get("output_index"@) == Some(JsonView::Int(0))
            &&& e[3].get("content_index"@) == Some(JsonView::Int(0))
            &&& is_output_text(member(e[3], "part"@), Seq::empty())
        }),
{
    lemma_event_members();
    lemma_items();
    let e = chunk_step(s, chunk).events;
    let h = header_events(s);
    assert(e[0] == h[0] && e[1] == h[1] && e[2] == h[2] && e[3] == h[3]);
    assert(announces(announced_response(s), s.resp_id, s.created, s.model)) by {
        reveal_strlit("id");
        reveal_strlit("object");
        reveal_strlit("created_at");
        reveal_strlit("status");
        reveal_strlit("model");
        reveal_strlit("output");
        reveal_strlit("usage");
        assert("id"@.len() == 2);
        assert("object"@.len() == 6);
        assert("created_at"@.len() == 10);
        assert("status"@.len() == 6);
        assert("model"@.len() == 5);
        assert("output"@.len() == 6);
        assert("usage"@.len() == 5);
        assert("model"@[0] == 'm');
        assert("object"@[0] == 'o');
        assert("object"@[1] == 'b');
        assert("output"@[0] == 'o');
        assert("output"@[1] == 'u');
        assert("status"@[0] == 's');
        assert("usage"@[0] == 'u');
    }
}

/// A response that is announced.
pub open spec fn announces(r: JsonView, id: Seq<char>, created: u64, model: Seq<char>) -> bool {
    &&& r.get("id"@) == Some(JsonView::Str(id))
    &&& r.get("object"@) == Some(JsonView::Str("response"@))
    &&& r.get("created_at"@) == Some(JsonView::Int(created as int))
    &&& r.get("status"@) == Some(JsonView::Str("in_progress"@))
    &&& r.get("model"@) == Some(JsonView::Str(model))
    &&& r.get("output"@) == Some(JsonView::Array(Seq::empty()))
    &&& r.get("usage"@) == Some(JsonView::Null)
}

/// Wherever a stream stands, if no tool call is open: once the upstream tells that the calls that
/// follow are complete, the response holds, if the stream ends there, the whole text and these calls,
/// in place of those that were complete before.
pub proof fn law_output_after_completion(s: StreamView, chunks: Seq<JsonView>, last: JsonView)
    requires
        rested(s),
        forall|i: int| 0 <= i < chunks.len() ==> !finishes(#[trigger] chunks[i]),
        finishes(last),
    ensures
        ({
            let q = chunk_step(chunks_step(s, chunks).state, last);
            let all = chunks.push(last);
            told_response(q.state).get("output"@) matches Some(JsonView::Array(output))
                && holds_all(output, s.msg_id, s.full_text + carried_text(all), all_pieces(all))
        }),
{
    let p = chunks_step(s, chunks);
    let all = chunks.push(last);
    assert(all.drop_last() =~= chunks);
    lemma_chunk_parts(p.state, last);
    let q = chunk_step(p.state, last);
    let b = before_finish(p.state, last);
    lemma_final(q.state);
    law_words_arrive(s, chunks);
    lemma_chunk_words(p.state, last);
    let d = member(first_choice(last), "delta"@);
    assert(s.full_text + carried_text(chunks) + words(d, "content"@) =~= s.full_text
        + carried_text(all));
    lemma_chunks_ordered(s, chunks);
    lemma_chunk_ordered(p.state, all_pieces(chunks), last);
    assert forall|index: usize| #[trigger] accounts(
        b.state,
        all_pieces(all),
        p.events + b.events,
        index,
    ) by {
        lemma_account_chunks(s, chunks, index);
        lemma_account_chunk(p.state, all_pieces(chunks), p.events, index, last);
    }
    lemma_account_chunks(s, chunks, 0);
    lemma_account_chunk(p.state, all_pieces(chunks), p.events, 0, last);
    lemma_items_account(
        b.state,
        b.state.active,
        s.msg_id,
        s.full_text + carried_text(all),
        all_pieces(all),
        p.events + b.events,
    );
    let t = closing(q.state).state;
    assert(t.completed == b.state.active);
    assert(unfinished(t.active, t.completed) =~= Seq::empty());
    assert(t.completed + unfinished(t.active, t.completed) =~= b.state.active);
}

/// The open calls whose identifier no complete call has, in their order.
pub open spec fn still_open(active: Seq<CallView>, completed: Seq<CallView>) -> Seq<CallView>
    decreases active.len(),
{
    if active.len() == 0 {
        Seq::empty()
    } else {
        let before = still_open(active.drop_last(), completed);
        if exists|i: int| 0 <= i < completed.len() && completed[i].id == active.last().id {
            before
        } else {
            before.push(active.last())
        }
    }
}

/// Whatever has happened in a stream, its end completes the calls that are still open, and the
/// response holds the message, if there is text, then the calls that were complete, then those that
/// the end completes, each as it stands.
pub proof fn law_end_completes_what_is_open(s: StreamView)
    ensures
        ({
            let calls = s.completed + still_open(s.active, s.completed);
            let offset: int = if s.full_text.len() > 0 {
                1
            } else {
                0
            };
            &&& told_response(s).get("output"@) matches Some(JsonView::Array(output))
                && output.len() == offset + calls.len() && (s.full_text.len() > 0 ==> is_message(
                output[0],
                s.msg_id,
                "completed"@,
                seq![s.full_text],
            )) && forall|k: int|
                0 <= k < calls.len() ==> is_call(
                    output[offset + k],
                    (#[trigger] calls[k]).id,
                    calls[k].name,
                    calls[k].arguments,
                    "completed"@,
                )
        }),
{
    lemma_final(s);
    lemma_items();
    lemma_event_members();
    lemma_still_open(s.active, s.completed);
    let t = closing(s).state;
    let calls = s.completed + still_open(s.active, s.completed);
    let output = output_items(t);
    let offset: int = if s.full_text.len() > 0 {
        1
    } else {
        0
    };
    assert forall|k: int| 0 <= k < calls.len() implies is_call(
        output[offset + k],
        (#[trigger] calls[k]).id,
        calls[k].name,
        calls[k].arguments,
        "completed"@,
    ) by {
        assert(output[offset + k] == done_item(calls[k]));
    }
}

/// The calls that are not known to be complete are those that are still open.
proof fn lemma_still_open(active: Seq<CallView>, completed: Seq<CallView>)
    ensures
        unfinished(active, completed) == still_open(active, completed),
    decreases active.len(),
{
    if active.len() > 0 {
        lemma_still_open(active.drop_last(), completed);
    }
}

/// Calls that are still open keep their places and indices.
proof fn lemma_still_open_places(active: Seq<CallView>, completed: Seq<CallView>)
    requires
        forall|i: int|
            0 <= i < active.len() ==> (#[trigger] active[i]).output_index == place_of(
                active[i].index,
            ),
        forall|i: int, j: int|
            0 <= i < j < active.len() ==> (#[trigger] active[i]).index != (
            #[trigger] active[j]).index,
    ensures
        ({
            let open = still_open(active, completed);
            &&& forall|i: int|
                0 <= i < open.len() ==> (#[trigger] open[i]).output_index == place_of(open[i].index)
            &&& forall|i: int|
                0 <= i < open.len() ==> exists|k: int|
                    0 <= k < active.len() && active[k] == #[trigger] open[i]
            &&& forall|i: int, j: int|
                0 <= i < j < open.len() ==> (#[trigger] open[i]).index != (#[trigger] open[j]).index
        }),
    decreases active.len(),
{
    if active.len() > 0 {
        let earlier = active.drop_last();
        assert forall|i: int| 0 <= i < earlier.len() implies #[trigger] earlier[i]
            == active[i] by {}
        lemma_still_open_places(earlier, completed);
        let before = still_open(earlier, completed);
        let open = still_open(active, completed);
        assert forall|i: int| 0 <= i < open.len() implies exists|k: int|
            0 <= k < active.len() && active[k] == #[trigger] open[i] by {
            if i < before.len() {
                assert(open[i] == before[i]);
                let k = choose|k: int| 0 <= k < earlier.len() && earlier[k] == before[i];
                assert(active[k] == open[i]);
            } else {
                assert(active[active.len() - 1] == open[i]);
            }
        }
        assert forall|i: int, j: int| 0 <= i < j < open.len() implies (#[trigger] open[i]).index
            != (#[trigger] open[j]).index by {
            if j == before.len() {
                assert(open[i] == before[i]);
                let k = choose|k: int| 0 <= k < earlier.len() && earlier[k] == before[i];
                assert(active[k].index != active[active.len() - 1].index);
            } else {
                assert(open[i] == before[i] && open[j] == before[j]);
            }
        }
    }
}

/// The end of a stream tells of each call that is still open, once, that it is complete, with all
/// its arguments, and of no other call.
pub proof fn law_end_tells_of_what_is_open(s: StreamView, index: usize)
    requires
        places(s),
    ensures
        ({
            let open = still_open(s.active, s.completed);
            let e = end_step(s).events;
            let wholes = picked(
                e,
                of_call("response.function_call_arguments.done"@, place_of(index)),
            );
            let items = picked(e, of_call("response.output_item.done"@, place_of(index)));
            &&& forall|k: int|
                0 <= k < open.len() && (#[trigger] open[k]).index == index ==> {
                    &&& wholes.len() == 1
                    &&& wholes[0].get("item_id"@) == Some(JsonView::Str(open[k].id))
                    &&& wholes[0].get("arguments"@) == Some(JsonView::Str(open[k].arguments))
                    &&& items.len() == 1
                    &&& is_call(
                        member(items[0], "item"@),
                        open[k].id,
                        open[k].name,
                        open[k].arguments,
                        "completed"@,
                    )
                }
            &&& (forall|k: int| 0 <= k < open.len() ==> (#[trigger] open[k]).index != index)
                ==> wholes.len() == 0 && items.len() == 0
        }),
{
    lemma_kinds();
    lemma_event_members();
    let t = closing(s).state;
    let open = still_open(s.active, s.completed);
    lemma_still_open(s.active, s.completed);
    assert forall|i: int| 0 <= i < s.active.len() implies (#[trigger] s.active[i]).output_index
        == place_of(s.active[i].index) by {}
    lemma_still_open_places(s.active, s.completed);
    lemma_done(open, index);
    let place = place_of(index);
    lemma_closing_is_quiet(s, place);
    let a = closing(s).events;
    let b = all_done_events(open);
    let last = response_event("response.completed"@, final_response(t));
    let e = end_step(s).events;
    assert(e =~= a + b + seq![last]);
    lemma_picked_concat(a, b, of_call(whole(), place));
    lemma_picked_concat(a, b, of_call(closed(), place));
    lemma_picked_concat(a + b, seq![last], of_call(whole(), place));
    lemma_picked_concat(a + b, seq![last], of_call(closed(), place));
    lemma_picked_one(last, of_call(whole(), place));
    lemma_picked_one(last, of_call(closed(), place));
    assert(picked(e, of_call(whole(), place)) =~= picked(b, of_call(whole(), place)));
    assert(picked(e, of_call(closed(), place)) =~= picked(b, of_call(closed(), place)));
    lemma_found_call(open, index);
    assert forall|k: int| 0 <= k < open.len() && (#[trigger] open[k]).index == index implies held(
        open,
        index,
    ) == Some(open[k]) by {
        assert forall|j: int| 0 <= j < k implies (#[trigger] open[j]).index != index by {}
        lemma_call_at(open, index, k);
    }
}

}
