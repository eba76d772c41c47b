//! How the answer of the upstream is passed on to the client.

use crate::clock::seconds_in;
use crate::headers::{
    announces_events, event_stream, event_stream_headers, header_fields, is_event_stream,
    passed_on, strip_response_hop_by_hop, typed, typed_headers,
};
use crate::ids::is_id;
use crate::json::{json_parse, json_text, JsonView};
use crate::proxy::plan::Plan;
use crate::proxy::rewrite::{
    blank, extract_model_from_sse_line, law_bodies_are_rewritten, law_lines_are_rewritten,
    lemma_line_of, model_in_line, only_model_changed, rewrite_model_in_json,
    rewrite_model_in_sse_line, rewritten_line, rewritten_response, tight,
};
use crate::sse::{complete_lines, events_text, last_line, law_lines_of_pieces, LineBuffer};
use crate::text::{
    from_utf8_lossy, lemma_first_at_unique, opt_str, opt_text, texts, trim_end,
    trimmed_end, utf8_lossy,
};
use crate::transform::laws::{
    chunk_text, completed, count, created, law_end_events, law_end_is_final, law_line_events,
    law_text_is_kept, lemma_count_concat, part_done,
};
use crate::transform::response::{
    chat_response_to_responses_as, is_response, law_response_bytes, tells_the_same,
};
use crate::transform::stream::{
    chunk_step, done_line, end_step, flush_stream_completion, fresh, is_done, line_chunk, line_output,
    line_step, transform_chat_sse_chunk, StreamTransformState, StreamView,
};
use vstd::prelude::*;
use vstd::slice::slice_to_vec;
use vstd::utf8::{decode_utf8, encode_utf8, valid_utf8};

verus! {

broadcast use vstd::string::group_string_axioms;

// ── What changes on the way ────────────────────────────────────────────────

/// What changes in an answer on its way.
#[derive(Debug)]
pub enum Change {
    /// The model that it names.
    Model(String),
    /// The protocol, and the model that it names, if one is given.
    Protocol(Option<String>),
}

/// How an answer is passed on.
#[derive(Debug)]
pub enum Relay {
    /// Unchanged, piece by piece.
    Pass,
    /// Changed as a whole.
    Whole(Change),
    /// Changed line by line.
    Stream(Change),
}

/// What changes in an answer on its way.
pub enum ChangeView {
    Model(Seq<char>),
    Protocol(Option<Seq<char>>),
}

/// How an answer is passed on.
pub enum RelayView {
    Pass,
    Whole(ChangeView),
    Stream(ChangeView),
}

impl View for Change {
    type V = ChangeView;

    open spec fn view(&self) -> ChangeView {
        match self {
            Change::Model(model) => ChangeView::Model(model@),
            Change::Protocol(model) => ChangeView::Protocol(opt_text(*model)),
        }
    }
}

impl View for Relay {
    type V = RelayView;

    open spec fn view(&self) -> RelayView {
        match self {
            Relay::Pass => RelayView::Pass,
            Relay::Whole(change) => RelayView::Whole(change@),
            Relay::Stream(change) => RelayView::Stream(change@),
        }
    }
}

/// How an answer with these fields is passed on: a stream of events line by line, anything
/// else as a whole, and unchanged if nothing is to change.
pub open spec fn relay_of(
    transform: bool,
    response_model: Option<Seq<char>>,
    headers: Map<Seq<char>, Seq<Seq<u8>>>,
) -> RelayView {
    let change = if transform {
        Some(ChangeView::Protocol(response_model))
    } else {
        match response_model {
            Some(model) => Some(ChangeView::Model(model)),
            None => None,
        }
    };
    match change {
        Some(c) => if announces_events(headers) {
            RelayView::Stream(c)
        } else {
            RelayView::Whole(c)
        },
        None => RelayView::Pass,
    }
}

/// Decides how the answer to a request is passed on.
pub fn choose_relay(plan: &Plan, headers: &http::HeaderMap) -> (r: Relay)
    ensures
        r@ == relay_of(plan.transform, plan@.response_model, header_fields(*headers)),
{
    let model = match &plan.response_model {
        Some(m) => Some(m.clone()),
        None => None,
    };
    let change = if plan.transform {
        Change::Protocol(model)
    } else {
        match model {
            Some(m) => Change::Model(m),
            None => {
                return Relay::Pass;
            },
        }
    };
    if is_event_stream(headers) {
        Relay::Stream(change)
    } else {
        Relay::Whole(change)
    }
}

/// Whether the client is told when an answer breaks off: one that is passed on unchanged breaks
/// off for the client too, one that is changed just ends.
pub fn passes_error_on(relay: &Relay) -> (r: bool)
    ensures
        r == (relay@ is Pass),
{
    match relay {
        Relay::Pass => true,
        _ => false,
    }
}

// ── The head of the answer ─────────────────────────────────────────────────

/// The status and the header fields of an answer.
#[derive(Debug)]
pub struct Head {
    pub status: u16,
    pub headers: http::HeaderMap,
}

/// The head that the client gets. An answer whose protocol changes is a success with fields of
/// its own; a stream whose model changes has fields of its own; anything else has the fields of
/// the upstream that do not concern the connection.
pub open spec fn is_head(
    relay: RelayView,
    status: u16,
    headers: Map<Seq<char>, Seq<Seq<u8>>>,
    head_status: u16,
    head_headers: Map<Seq<char>, Seq<Seq<u8>>>,
) -> bool {
    match relay {
        RelayView::Whole(ChangeView::Protocol(_)) => head_status == 200 && head_headers == typed(
            "application/json"@,
        ),
        RelayView::Stream(ChangeView::Protocol(_)) => head_status == 200 && head_headers
            == event_stream(),
        RelayView::Stream(ChangeView::Model(_)) => head_status == status && head_headers
            == event_stream(),
        RelayView::Whole(ChangeView::Model(_)) | RelayView::Pass => head_status == status
            && head_headers == passed_on(headers),
    }
}

/// The head that the client gets.
pub fn relay_head(relay: &Relay, status: u16, headers: &http::HeaderMap) -> (r: Head)
    ensures
        is_head(relay@, status, header_fields(*headers), r.status, header_fields(r.headers)),
{
    proof {
        reveal_strlit("application/json");
    }
    match relay {
        Relay::Whole(Change::Protocol(_)) => Head {
            status: 200,
            headers: typed_headers("application/json"),
        },
        Relay::Stream(Change::Protocol(_)) => Head { status: 200, headers: event_stream_headers() },
        Relay::Stream(Change::Model(_)) => Head { status, headers: event_stream_headers() },
        Relay::Whole(Change::Model(_)) | Relay::Pass => Head {
            status,
            headers: strip_response_hop_by_hop(headers),
        },
    }
}

// ── Whole bodies ───────────────────────────────────────────────────────────

/// Whether `out` is what a body becomes on its way. A body that is not JSON stays as it is.
pub open spec fn is_changed_body(change: ChangeView, body: Seq<u8>, out: Seq<u8>) -> bool {
    match change {
        ChangeView::Model(model) => out == rewritten_response(body, model),
        ChangeView::Protocol(model) => match json_parse(body) {
            Some(chat) => is_response(chat, model, out),
            None => out == body,
        },
    }
}

/// Changes a whole body.
pub fn change_body(change: &Change, body: &Vec<u8>) -> (r: Vec<u8>)
    ensures
        is_changed_body(change@, body@, r@),
{
    match change {
        Change::Model(model) => rewrite_model_in_json(body.as_slice(), model.as_str()),
        Change::Protocol(model) => {
            let shown: Option<&str> = match model {
                Some(m) => Some(m.as_str()),
                None => None,
            };
            match chat_response_to_responses_as(body.as_slice(), shown) {
                Some(converted) => converted,
                None => slice_to_vec(body.as_slice()),
            }
        },
    }
}

// ── Streams whose model changes ────────────────────────────────────────────

/// What the client gets for a piece of a stream in which the model changes: the lines that it
/// completes, each rewritten.
pub open spec fn rewritten_piece(
    rest: Seq<char>,
    model: Seq<char>,
    piece: Seq<char>,
) -> Seq<Seq<char>> {
    complete_lines(rest + piece).map_values(|line: Seq<char>| rewritten_line(line, model))
}

/// A stream of events in which the model changes.
pub struct SseRewriter {
    pub buffer: LineBuffer,
    pub model: String,
}

impl SseRewriter {
    /// A stream of which nothing has arrived.
    pub fn new(model: &str) -> (r: Self)
        ensures
            r.buffer.rest@ == Seq::<char>::empty(),
            r.model@ == model@,
    {
        SseRewriter { buffer: LineBuffer::new(), model: model.to_owned() }
    }

    /// Takes the next piece of the stream, and hands out the lines that it completes.
    pub fn push_text(&mut self, piece: &str) -> (r: Vec<String>)
        ensures
            texts(r@) == complete_lines(old(self).buffer.rest@ + piece@).map_values(
                |line: Seq<char>| rewritten_line(line, old(self).model@),
            ),
            final(self).buffer.rest@ == last_line(old(self).buffer.rest@ + piece@),
            final(self).model@ == old(self).model@,
            texts(r@) == rewritten_piece(old(self).buffer.rest@, old(self).model@, piece@),
    {
        let ghost model = self.model@;
        let lines = self.buffer.push(piece);
        let ghost all = texts(lines@).map_values(|line: Seq<char>| rewritten_line(line, model));
        let mut out: Vec<String> = Vec::new();
        let mut i: usize = 0;
        assert(texts(out@) =~= all.take(0));
        while i < lines.len()
            invariant
                self.model@ == model,
                all == texts(lines@).map_values(|line: Seq<char>| rewritten_line(line, model)),
                i <= lines@.len(),
                texts(out@) == all.take(i as int),
            decreases lines@.len() - i,
        {
            let ghost before = out@;
            let line = rewrite_model_in_sse_line(lines[i].as_str(), self.model.as_str());
            out.push(line);
            proof {
                assert(texts(out@) =~= texts(before).push(line@));
                assert(all.take(i + 1) =~= all.take(i as int).push(all[i as int]));
            }
            i += 1;
        }
        assert(all.take(lines@.len() as int) =~= all);
        out
    }

    /// Takes the next bytes of the stream, and hands out the lines that they complete.
    pub fn push(&mut self, bytes: &[u8]) -> (r: Vec<String>)
        ensures
            texts(r@) == complete_lines(old(self).buffer.rest@ + utf8_lossy(bytes@)).map_values(
                |line: Seq<char>| rewritten_line(line, old(self).model@),
            ),
            final(self).buffer.rest@ == last_line(old(self).buffer.rest@ + utf8_lossy(bytes@)),
            final(self).model@ == old(self).model@,
            valid_utf8(bytes@) ==> utf8_lossy(bytes@) == decode_utf8(bytes@),
    {
        self.push_text(from_utf8_lossy(bytes).as_str())
    }
}

// ── Streams whose protocol changes ─────────────────────────────────────────

/// A Chat Completions stream on its way to becoming a Responses stream.
pub struct ChatStream {
    pub buffer: LineBuffer,
    /// The model that is shown, or nothing while none is known.
    pub model: String,
    pub state: StreamTransformState,
}

/// A Chat Completions stream on its way to becoming a Responses stream.
pub struct ChatView {
    pub rest: Seq<char>,
    pub model: Seq<char>,
    pub stream: StreamView,
}

impl View for ChatStream {
    type V = ChatView;

    open spec fn view(&self) -> ChatView {
        ChatView {
            rest: self.buffer.rest@,
            model: self.model@,
            stream: self.state@,
        }
    }
}

/// The stream after the model that a line names has been taken over, if none is known.
pub open spec fn with_named_model(c: ChatView, line: Seq<char>) -> ChatView {
    match model_in_line(line) {
        Some(model) if c.model.len() == 0 => ChatView {
            model,
            stream: StreamView { model, ..c.stream },
            ..c
        },
        _ => c,
    }
}

/// The stream after a line.
pub open spec fn after_line(c: ChatView, raw: Seq<char>) -> ChatView {
    let line = trimmed_end(raw);
    let d = with_named_model(c, line);
    ChatView { stream: line_step(d.stream, line).state, ..d }
}

/// What a line gives the client.
pub open spec fn output_of_line(c: ChatView, raw: Seq<char>) -> Option<Seq<char>> {
    let line = trimmed_end(raw);
    line_output(with_named_model(c, line).stream, line)
}

/// The stream after lines.
pub open spec fn after_lines(c: ChatView, lines: Seq<Seq<char>>) -> ChatView
    decreases lines.len(),
{
    if lines.len() == 0 {
        c
    } else {
        after_line(after_lines(c, lines.drop_last()), lines.last())
    }
}

/// What lines give the client.
pub open spec fn output_of_lines(c: ChatView, lines: Seq<Seq<char>>) -> Seq<Seq<char>>
    decreases lines.len(),
{
    if lines.len() == 0 {
        Seq::empty()
    } else {
        let before = output_of_lines(c, lines.drop_last());
        match output_of_line(after_lines(c, lines.drop_last()), lines.last()) {
            Some(text) => before.push(text),
            None => before,
        }
    }
}

/// The stream after a piece of text.
pub open spec fn after_piece(c: ChatView, piece: Seq<char>) -> ChatView {
    ChatView {
        rest: last_line(c.rest + piece),
        ..after_lines(c, complete_lines(c.rest + piece))
    }
}

/// What a piece of text gives the client.
pub open spec fn output_of_piece(c: ChatView, piece: Seq<char>) -> Seq<Seq<char>> {
    output_of_lines(c, complete_lines(c.rest + piece))
}

/// The stream at its end.
pub open spec fn after_end(c: ChatView) -> ChatView {
    if c.stream.ended {
        c
    } else {
        ChatView { stream: end_step(c.stream).state, ..c }
    }
}

/// What the end of the stream gives the client: the end of the response, unless it has been
/// sent.
pub open spec fn output_of_end(c: ChatView) -> Option<Seq<char>> {
    if c.stream.ended {
        None
    } else {
        Some(events_text(end_step(c.stream).events) + done_line())
    }
}

impl ChatStream {
    /// A stream of which nothing has arrived, and the model that is to be shown, if one is
    /// given.
    pub fn new(model: Option<&str>) -> (r: Self)
        ensures
            is_id("msg"@, r@.stream.msg_id),
            is_id("resp"@, r@.stream.resp_id),
            exists|millis: u64| r.state.created == #[trigger] seconds_in(millis),
            ({
                let shown = match opt_str(model) {
                    Some(m) => m,
                    None => Seq::empty(),
                };
                r@ == (ChatView {
                    rest: Seq::empty(),
                    model: shown,
                    stream: fresh(
                        shown,
                        r@.stream.msg_id,
                        r@.stream.resp_id,
                        r@.stream.created,
                    ),
                })
            }),
    {
        proof {
            reveal_strlit("");
            assert(""@ =~= Seq::<char>::empty());
        }
        let shown: &str = match model {
            Some(m) => m,
            None => "",
        };
        ChatStream {
            buffer: LineBuffer::new(),
            model: shown.to_owned(),
            state: StreamTransformState::new(shown, None),
        }
    }

    /// Takes the next line of the stream.
    pub fn push_line(&mut self, raw: &str) -> (r: Option<String>)
        ensures
            final(self)@ == after_line(old(self)@, raw@),
            opt_text(r) == output_of_line(old(self)@, raw@),
    {
        let line = trim_end(raw);
        if self.model.as_str().is_empty() {
            if let Some(model) = extract_model_from_sse_line(line) {
                self.state.model = model.clone();
                self.model = model;
            }
        }
        transform_chat_sse_chunk(line, &mut self.state)
    }

    /// Takes the next piece of the stream, and hands out what it gives the client.
    pub fn push_text(&mut self, piece: &str) -> (r: Vec<String>)
        ensures
            final(self)@ == after_piece(old(self)@, piece@),
            texts(r@) == output_of_piece(old(self)@, piece@),
    {
        let ghost c0 = self@;
        let lines = self.buffer.push(piece);
        let ghost c = self@;
        let ghost all = texts(lines@);
        let mut out: Vec<String> = Vec::new();
        let mut i: usize = 0;
        proof {
            lemma_rest_plays_no_part(c0, c.rest, all);
            assert(all.take(0) =~= Seq::<Seq<char>>::empty());
            assert(texts(out@) =~= Seq::<Seq<char>>::empty());
        }
        while i < lines.len()
            invariant
                all == texts(lines@),
                i <= lines@.len(),
                self@ == after_lines(c, all.take(i as int)),
                texts(out@) == output_of_lines(c, all.take(i as int)),
            decreases lines@.len() - i,
        {
            assert(all.take(i + 1).drop_last() =~= all.take(i as int));
            assert(all.take(i + 1).last() == lines@[i as int]@);
            let text = self.push_line(lines[i].as_str());
            if let Some(t) = text {
                let ghost before = out@;
                out.push(t);
                assert(texts(out@) =~= texts(before).push(t@));
            }
            i += 1;
        }
        assert(all.take(lines@.len() as int) =~= all);
        out
    }

    /// Takes the next bytes of the stream, and hands out what they give the client.
    pub fn push(&mut self, bytes: &[u8]) -> (r: Vec<String>)
        ensures
            final(self)@ == after_piece(old(self)@, utf8_lossy(bytes@)),
            texts(r@) == output_of_piece(old(self)@, utf8_lossy(bytes@)),
            valid_utf8(bytes@) ==> utf8_lossy(bytes@) == decode_utf8(bytes@),
    {
        self.push_text(from_utf8_lossy(bytes).as_str())
    }

    /// Ends the stream, whether or not the upstream has announced its end. What has arrived of
    /// a line that is not complete is dropped.
    pub fn finish(&mut self) -> (r: Option<String>)
        ensures
            final(self)@ == after_end(old(self)@),
            opt_text(r) == output_of_end(old(self)@),
    {
        flush_stream_completion(&mut self.state)
    }
}

/// What has arrived of a line that is not complete plays no part in what lines do.
proof fn lemma_rest_plays_no_part(c: ChatView, rest: Seq<char>, lines: Seq<Seq<char>>)
    ensures
        after_lines(ChatView { rest, ..c }, lines) == (ChatView { rest, ..after_lines(c, lines) }),
        output_of_lines(ChatView { rest, ..c }, lines) == output_of_lines(c, lines),
    decreases lines.len(),
{
    if lines.len() > 0 {
        lemma_rest_plays_no_part(c, rest, lines.drop_last());
    }
}

// ── What holds of every stream ─────────────────────────────────────────────

/// Lines after lines do what all of them do.
proof fn lemma_lines_concat(c: ChatView, a: Seq<Seq<char>>, b: Seq<Seq<char>>)
    ensures
        after_lines(c, a + b) == after_lines(after_lines(c, a), b),
        output_of_lines(c, a + b) == output_of_lines(c, a) + output_of_lines(after_lines(c, a), b),
    decreases b.len(),
{
    if b.len() == 0 {
        assert(a + b =~= a);
        assert(output_of_lines(c, a) + Seq::<Seq<char>>::empty() =~= output_of_lines(c, a));
    } else {
        lemma_lines_concat(c, a, b.drop_last());
        assert((a + b).drop_last() =~= a + b.drop_last());
        assert(output_of_lines(c, a + b) =~= output_of_lines(c, a) + output_of_lines(
            after_lines(c, a),
            b,
        ));
    }
}

/// How the upstream cuts a stream into pieces makes no difference: two pieces of text give the
/// client what both together give.
pub proof fn law_pieces_make_no_difference(c: ChatView, a: Seq<char>, b: Seq<char>)
    ensures
        after_piece(after_piece(c, a), b) == after_piece(c, a + b),
        output_of_piece(c, a) + output_of_piece(after_piece(c, a), b) == output_of_piece(c, a + b),
{
    let first = complete_lines(c.rest + a);
    let d = after_piece(c, a);
    let second = complete_lines(d.rest + b);
    assert(c.rest + a + b =~= c.rest + (a + b));
    law_lines_of_pieces(c.rest + a, b);
    lemma_lines_concat(c, first, second);
    lemma_rest_plays_no_part(after_lines(c, first), d.rest, second);
    assert(d == (ChatView { rest: d.rest, ..after_lines(c, first) }));
}

/// Two pieces of a stream whose model changes give the client what both together give.
pub proof fn law_rewritten_pieces(rest: Seq<char>, model: Seq<char>, a: Seq<char>, b: Seq<char>)
    ensures
        ({
            let f = |line: Seq<char>| rewritten_line(line, model);
            complete_lines(rest + a).map_values(f) + complete_lines(
                last_line(rest + a) + b,
            ).map_values(f) == complete_lines(rest + (a + b)).map_values(f)
        }),
{
    let f = |line: Seq<char>| rewritten_line(line, model);
    assert(rest + a + b =~= rest + (a + b));
    law_lines_of_pieces(rest + a, b);
    assert(complete_lines(rest + a).map_values(f) + complete_lines(
        last_line(rest + a) + b,
    ).map_values(f) =~= complete_lines(rest + (a + b)).map_values(f));
}

/// The events that a line gives the client.
pub open spec fn events_of_line(c: ChatView, raw: Seq<char>) -> Seq<JsonView> {
    let line = trimmed_end(raw);
    line_step(with_named_model(c, line).stream, line).events
}

/// What the client gets for a line is the text of its events; behind the last event of the
/// response stands the line that ends the stream.
pub proof fn law_output_is_the_events(c: ChatView, raw: Seq<char>)
    ensures
        ({
            let events = events_of_line(c, raw);
            let ends = is_done(trimmed_end(raw));
            match output_of_line(c, raw) {
                Some(text) => if ends {
                    !c.stream.ended && text == events_text(events) + done_line()
                } else {
                    events.len() > 0 && text == events_text(events)
                },
                None => events.len() == 0 && (ends ==> c.stream.ended),
            }
        }),
{
}

/// The events that lines give the client.
pub open spec fn events_of_lines(c: ChatView, lines: Seq<Seq<char>>) -> Seq<JsonView>
    decreases lines.len(),
{
    if lines.len() == 0 {
        Seq::empty()
    } else {
        events_of_lines(c, lines.drop_last()) + events_of_line(
            after_lines(c, lines.drop_last()),
            lines.last(),
        )
    }
}

/// The events that the end of a stream gives the client.
pub open spec fn events_of_end(c: ChatView) -> Seq<JsonView> {
    if c.stream.ended {
        Seq::empty()
    } else {
        end_step(c.stream).events
    }
}

/// One, or none.
spec fn one_if(b: bool) -> int {
    if b {
        1
    } else {
        0
    }
}

/// What the events of lines open, close and end.
proof fn lemma_lines_tally(c: ChatView, lines: Seq<Seq<char>>)
    requires
        c.stream.ended ==> c.stream.msg_closed,
    ensures
        ({
            let d = after_lines(c, lines);
            let events = events_of_lines(c, lines);
            &&& count(events, created()) == one_if(
                d.stream.headers_emitted && !c.stream.headers_emitted,
            )
            &&& count(events, part_done()) == one_if(d.stream.msg_closed && !c.stream.msg_closed)
            &&& count(events, completed()) == one_if(d.stream.ended && !c.stream.ended)
            &&& c.stream.headers_emitted ==> d.stream.headers_emitted
            &&& c.stream.msg_closed ==> d.stream.msg_closed
            &&& c.stream.ended ==> d.stream.ended
            &&& d.stream.ended ==> d.stream.msg_closed
        }),
    decreases lines.len(),
{
    if lines.len() > 0 {
        lemma_lines_tally(c, lines.drop_last());
        let b = after_lines(c, lines.drop_last());
        let raw = lines.last();
        let line = trimmed_end(raw);
        let s = with_named_model(b, line).stream;
        law_line_events(s, line);
        law_end_is_final(s, line);
        if is_done(line) {
            law_end_events(s);
        }
        let before = events_of_lines(c, lines.drop_last());
        let events = events_of_line(b, raw);
        lemma_count_concat(before, events, created());
        lemma_count_concat(before, events, part_done());
        lemma_count_concat(before, events, completed());
    }
}

/// Every stream ends its response exactly once, with or without the upstream announcing its
/// end, and closes its message exactly once. It opens the response at most once.
pub proof fn law_response_ends_once(c: ChatView, lines: Seq<Seq<char>>)
    requires
        !c.stream.ended,
        !c.stream.msg_closed,
        !c.stream.headers_emitted,
    ensures
        ({
            let d = after_lines(c, lines);
            let events = events_of_lines(c, lines) + events_of_end(d);
            &&& count(events, completed()) == 1
            &&& count(events, part_done()) == 1
            &&& count(events, created()) == if d.stream.headers_emitted {
                1int
            } else {
                0
            }
            &&& after_end(d).stream.ended
        }),
{
    lemma_lines_tally(c, lines);
    let d = after_lines(c, lines);
    law_end_events(d.stream);
    lemma_count_concat(events_of_lines(c, lines), events_of_end(d), created());
    lemma_count_concat(events_of_lines(c, lines), events_of_end(d), part_done());
    lemma_count_concat(events_of_lines(c, lines), events_of_end(d), completed());
}

/// A model that is given is shown in the whole stream, whatever the upstream names.
pub proof fn law_given_model_is_shown(c: ChatView, lines: Seq<Seq<char>>)
    requires
        c.model.len() > 0,
        c.stream.model == c.model,
    ensures
        after_lines(c, lines).model == c.model,
        after_lines(c, lines).stream.model == c.model,
    decreases lines.len(),
{
    if lines.len() > 0 {
        law_given_model_is_shown(c, lines.drop_last());
        let b = after_lines(c, lines.drop_last());
        let line = trimmed_end(lines.last());
        if let Some(chunk) = line_chunk(line) {
            law_text_is_kept(b.stream, chunk);
        }
    }
}

/// The text that a line adds to the message.
pub open spec fn line_text(raw: Seq<char>) -> Seq<char> {
    match line_chunk(trimmed_end(raw)) {
        Some(chunk) => chunk_text(chunk),
        None => Seq::empty(),
    }
}

/// The text that lines add to the message.
pub open spec fn lines_text(lines: Seq<Seq<char>>) -> Seq<char>
    decreases lines.len(),
{
    if lines.len() == 0 {
        Seq::empty()
    } else {
        lines_text(lines.drop_last()) + line_text(lines.last())
    }
}

/// The message of the whole response is the text of all chunks, in their order.
pub proof fn law_whole_text(c: ChatView, lines: Seq<Seq<char>>)
    ensures
        after_lines(c, lines).stream.full_text == c.stream.full_text + lines_text(lines),
    decreases lines.len(),
{
    if lines.len() == 0 {
        assert(c.stream.full_text + lines_text(lines) =~= c.stream.full_text);
    } else {
        law_whole_text(c, lines.drop_last());
        let b = after_lines(c, lines.drop_last());
        let line = trimmed_end(lines.last());
        let s = with_named_model(b, line).stream;
        if let Some(chunk) = line_chunk(line) {
            law_text_is_kept(s, chunk);
        }
        assert(c.stream.full_text + lines_text(lines) =~= c.stream.full_text + lines_text(
            lines.drop_last(),
        ) + line_text(lines.last()));
        assert(s.full_text + Seq::<char>::empty() =~= s.full_text);
    }
}

/// How an answer is passed on: as it is if neither the protocol nor the model changes; otherwise
/// line by line if it is a stream of events, and as a whole if not. The protocol changes if the
/// request was transformed, and the model is changed to the one that the answer is to name.
pub proof fn law_relay(
    transform: bool,
    response_model: Option<Seq<char>>,
    headers: Map<Seq<char>, Seq<Seq<u8>>>,
)
    ensures
        ({
            let relay = relay_of(transform, response_model, headers);
            &&& relay is Pass <==> !transform && response_model is None
            &&& relay is Stream <==> (transform || response_model is Some) && announces_events(
                headers,
            )
            &&& relay matches RelayView::Stream(change) ==> changes_to(
                change,
                transform,
                response_model,
            )
            &&& relay matches RelayView::Whole(change) ==> changes_to(
                change,
                transform,
                response_model,
            )
        }),
{
}

/// What is to change.
pub open spec fn changes_to(
    change: ChangeView,
    transform: bool,
    response_model: Option<Seq<char>>,
) -> bool {
    match change {
        ChangeView::Protocol(model) => transform && model == response_model,
        ChangeView::Model(model) => !transform && response_model == Some(model),
    }
}

/// The head of an answer that is passed on as it is, or in which only the model changes, has the
/// status of the upstream; where the body is that of the upstream too, or has its shape, its fields
/// are those of the upstream that do not concern the connection. A stream that is changed has the
/// fields of a stream, and an answer of the other protocol is a success.
pub proof fn law_head(
    relay: RelayView,
    status: u16,
    headers: Map<Seq<char>, Seq<Seq<u8>>>,
    head_status: u16,
    head_headers: Map<Seq<char>, Seq<Seq<u8>>>,
)
    requires
        is_head(relay, status, headers, head_status, head_headers),
    ensures
        relay is Pass ==> head_status == status && head_headers == passed_on(headers),
        relay matches RelayView::Whole(ChangeView::Model(m)) ==> head_status == status
            && head_headers == passed_on(headers),
        relay matches RelayView::Stream(ChangeView::Model(m)) ==> head_status == status,
        relay is Stream ==> head_headers == Map::empty().insert(
            "content-type"@,
            seq![encode_utf8("text/event-stream"@)],
        ).insert("cache-control"@, seq![encode_utf8("no-cache"@)]),
        relay matches RelayView::Whole(ChangeView::Protocol(m)) ==> head_status == 200
            && head_headers == Map::empty().insert(
            "content-type"@,
            seq![encode_utf8("application/json"@)],
        ),
        relay matches RelayView::Stream(ChangeView::Protocol(m)) ==> head_status == 200,
{
}

/// A whole body whose model changes is JSON in which nothing else changes; a body of the other
/// protocol is the response to it; what is not JSON stays as it is.
pub proof fn law_changed_body(change: ChangeView, body: Seq<u8>, out: Seq<u8>)
    requires
        is_changed_body(change, body, out),
    ensures
        json_parse(body) is None ==> out == body,
        json_parse(body) matches Some(value) ==> match change {
            ChangeView::Model(model) => exists|changed: JsonView|
                only_model_changed(value, model, changed) && out == encode_utf8(
                    #[trigger] json_text(changed),
                ),
            ChangeView::Protocol(model) => tells_the_same(value, model, out),
        },
{
    match (change, json_parse(body)) {
        (ChangeView::Model(model), _) => {
            law_bodies_are_rewritten(body, model);
        },
        (ChangeView::Protocol(model), Some(chat)) => {
            law_response_bytes(chat, model, out);
        },
        _ => {},
    }
}

/// A line with a chunk does what the chunk does, and gives the client the text of its events. Before
/// that, if no model is known, the model that the chunk names is taken over. White space around the
/// chunk does not matter.
pub proof fn law_line_does_what_its_chunk_does(
    c: ChatView,
    before: Seq<char>,
    data: Seq<char>,
    after: Seq<char>,
)
    requires
        blank(before),
        tight(data),
        blank(after),
        data != "[DONE]"@,
    ensures
        ({
            let raw = "data: "@ + before + data + after;
            match json_parse(encode_utf8(data)) {
                Some(chunk) => {
                    let s = match chunk.get("model"@) {
                        Some(JsonView::Str(named)) if c.model.len() == 0 => StreamView {
                            model: named,
                            ..c.stream
                        },
                        _ => c.stream,
                    };
                    let model = match chunk.get("model"@) {
                        Some(JsonView::Str(named)) if c.model.len() == 0 => named,
                        _ => c.model,
                    };
                    let p = chunk_step(s, chunk);
                    &&& after_line(c, raw) == (ChatView { model, stream: p.state, ..c })
                    &&& events_of_line(c, raw) == p.events
                    &&& output_of_line(c, raw) == if p.events.len() > 0 {
                        Some(events_text(p.events))
                    } else {
                        None
                    }
                },
                None => after_line(c, raw) == c && output_of_line(c, raw) is None,
            }
        }),
{
    lemma_line_of(before, data, after);
}

/// The line that announces the end of a stream ends the response, and the client gets the text of
/// its last events and that line, unless the response has ended. So does the end of the stream
/// itself. A line that carries no data does nothing.
pub proof fn law_other_lines(c: ChatView, before: Seq<char>, after: Seq<char>, raw: Seq<char>)
    requires
        blank(before),
        blank(after),
    ensures
        ({
            let end = "data: "@ + before + "[DONE]"@ + after;
            if c.stream.ended {
                after_line(c, end) == c && output_of_line(c, end) is None
            } else {
                &&& after_line(c, end) == (ChatView { stream: end_step(c.stream).state, ..c })
                &&& output_of_line(c, end) == Some(
                    events_text(end_step(c.stream).events) + "data: [DONE]\n\n"@,
                )
            }
        }),
        !"data: "@.is_prefix_of(raw) ==> after_line(c, raw) == c && output_of_line(c, raw) is None,
        c.stream.ended ==> after_end(c) == c,
        !c.stream.ended ==> after_end(c) == (ChatView {
            stream: end_step(c.stream).state,
            ..c
        }),
        output_of_end(c) == if c.stream.ended {
            None
        } else {
            Some(events_text(end_step(c.stream).events) + "data: [DONE]\n\n"@)
        },
{
    reveal_strlit("[DONE]");
    assert(tight("[DONE]"@)) by {
        assert("[DONE]"@[0] == '[');
        assert("[DONE]"@.last() == ']');
    }
    lemma_line_of(before, "[DONE]"@, after);
    if !"data: "@.is_prefix_of(raw) {
        lemma_trimmed_end_prefix(raw);
        assert(!"data: "@.is_prefix_of(trimmed_end(raw)));
    }
}

/// What is left of a text without the white space at its end is a start of it.
proof fn lemma_trimmed_end_prefix(s: Seq<char>)
    ensures
        trimmed_end(s).is_prefix_of(s),
    decreases s.len(),
{
    if s.len() > 0 {
        lemma_trimmed_end_prefix(s.drop_last());
    }
}

/// Lines are treated one after the other, each in the state that those before it left.
pub proof fn law_lines_in_order(c: ChatView, lines: Seq<Seq<char>>, raw: Seq<char>)
    ensures
        after_lines(c, Seq::empty()) == c,
        output_of_lines(c, Seq::empty()) == Seq::<Seq<char>>::empty(),
        after_lines(c, lines.push(raw)) == after_line(after_lines(c, lines), raw),
        output_of_lines(c, lines.push(raw)) == match output_of_line(after_lines(c, lines), raw) {
            Some(text) => output_of_lines(c, lines).push(text),
            None => output_of_lines(c, lines),
        },
{
    assert(lines.push(raw).drop_last() =~= lines);
}

/// A piece of a stream that completes a line does what the line does, and what stands behind the
/// line is kept for the next piece. A piece that completes none does nothing but add to it.
pub proof fn law_piece_completes_a_line(
    c: ChatView,
    piece: Seq<char>,
    line: Seq<char>,
    rest: Seq<char>,
)
    requires
        forall|i: int| 0 <= i < line.len() ==> #[trigger] line[i] != '\n',
        forall|i: int| 0 <= i < rest.len() ==> #[trigger] rest[i] != '\n',
    ensures
        c.rest + piece == line.push('\n') + rest ==> {
            &&& after_piece(c, piece) == (ChatView { rest, ..after_line(c, line.push('\n')) })
            &&& output_of_piece(c, piece) == match output_of_line(c, line.push('\n')) {
                Some(text) => seq![text],
                None => Seq::empty(),
            }
        },
        c.rest + piece == rest ==> {
            &&& after_piece(c, piece) == (ChatView { rest, ..c })
            &&& output_of_piece(c, piece) == Seq::<Seq<char>>::empty()
        },
{
    lemma_first_at_unique(rest, '\n', rest.len() as int);
    if c.rest + piece == line.push('\n') + rest {
        let text = line.push('\n') + rest;
        let k = line.len() as int;
        assert forall|j: int| 0 <= j < k implies text[j] != '\n' by {
            assert(text[j] == line[j]);
        }
        lemma_first_at_unique(text, '\n', k);
        assert(text.take(k + 1) =~= line.push('\n'));
        assert(text.skip(k + 1) =~= rest);
        assert(complete_lines(rest) =~= Seq::<Seq<char>>::empty());
        assert(last_line(rest) == rest);
        assert(last_line(text) == last_line(text.skip(k + 1)));
        assert(c.rest + piece =~= text);
        let lines = complete_lines(text);
        assert(lines =~= Seq::<Seq<char>>::empty().push(line.push('\n')));
        law_lines_in_order(c, Seq::empty(), line.push('\n'));
        assert(output_of_piece(c, piece) =~= match output_of_line(c, line.push('\n')) {
            Some(text) => seq![text],
            None => Seq::empty(),
        });
    }
}

/// A piece of a stream in which the model changes, and which completes the line of a chunk, gives the
/// client that chunk with the other model and nothing else changed. A piece that completes the line
/// of no chunk gives the client the line as it is, and one that completes none nothing.
pub proof fn law_rewritten_piece(
    rest: Seq<char>,
    model: Seq<char>,
    piece: Seq<char>,
    line: Seq<char>,
    tail: Seq<char>,
)
    requires
        forall|i: int| 0 <= i < line.len() ==> #[trigger] line[i] != '\n',
        forall|i: int| 0 <= i < tail.len() ==> #[trigger] tail[i] != '\n',
    ensures
        rest + piece == tail ==> rewritten_piece(rest, model, piece).len() == 0,
        rest + piece == line.push('\n') + tail ==> {
            let out = rewritten_piece(rest, model, piece);
            &&& out.len() == 1
            &&& !"data: "@.is_prefix_of(line.push('\n')) ==> out[0] == line.push('\n')
            &&& forall|data: Seq<char>|
                line == #[trigger] ("data: "@ + data) && tight(data) && data != "[DONE]"@
                    ==> match json_parse(encode_utf8(data)) {
                    Some(value) => exists|changed: JsonView|
                        only_model_changed(value, model, changed) && out[0] == "data: "@
                            + #[trigger] json_text(changed) + "\n\n"@,
                    None => out[0] == line.push('\n'),
                }
        },
{
    reveal_strlit("\n");
    lemma_first_at_unique(tail, '\n', tail.len() as int);
    assert(complete_lines(tail) =~= Seq::<Seq<char>>::empty());
    if rest + piece == line.push('\n') + tail {
        let text = line.push('\n') + tail;
        let k = line.len() as int;
        assert forall|j: int| 0 <= j < k implies text[j] != '\n' by {
            assert(text[j] == line[j]);
        }
        lemma_first_at_unique(text, '\n', k);
        assert(text.take(k + 1) =~= line.push('\n'));
        assert(text.skip(k + 1) =~= tail);
        assert(complete_lines(text) =~= seq![line.push('\n')]);
        let out = rewritten_piece(rest, model, piece);
        assert(out[0] == rewritten_line(line.push('\n'), model));
        if !"data: "@.is_prefix_of(line.push('\n')) {
            lemma_trimmed_end_prefix(line.push('\n'));
            assert(!"data: "@.is_prefix_of(trimmed_end(line.push('\n'))));
        }
        assert forall|data: Seq<char>|
            line == #[trigger] ("data: "@ + data) && tight(data) && data
                != "[DONE]"@ implies match json_parse(encode_utf8(data)) {
            Some(value) => exists|changed: JsonView|
                only_model_changed(value, model, changed) && out[0] == "data: "@
                    + #[trigger] json_text(changed) + "\n\n"@,
            None => out[0] == line.push('\n'),
        } by {
            law_lines_are_rewritten(Seq::empty(), data, "\n"@, model);
            assert("data: "@ + Seq::<char>::empty() + data + "\n"@ =~= line.push('\n'));
        }
    }
}

}
