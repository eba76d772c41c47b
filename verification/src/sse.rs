//! Server-sent events: the text of an event, and the lines of a stream that arrives in pieces.

use crate::json::{json_parse, json_text, reads_back, Json, JsonView};
use crate::text::{
    find_from, first_at, from_chars, lemma_first_at, lemma_first_at_unique, texts, to_chars,
};
use vstd::prelude::*;
use vstd::string::StringExecFns;
use vstd::utf8::encode_utf8;

verus! {

broadcast use vstd::string::group_string_axioms;

// ── Writing events ─────────────────────────────────────────────────────────

/// The text of one event.
pub open spec fn event_text(event: JsonView) -> Seq<char> {
    "data: "@ + json_text(event) + "\n\n"@
}

/// The text of events, one after the other.
pub open spec fn events_text(events: Seq<JsonView>) -> Seq<char>
    decreases events.len(),
{
    if events.len() == 0 {
        Seq::empty()
    } else {
        events_text(events.drop_last()) + event_text(events.last())
    }
}

/// The text of two lists of events is the text of the first, then that of the second.
pub proof fn lemma_events_concat(a: Seq<JsonView>, b: Seq<JsonView>)
    ensures
        events_text(a + b) == events_text(a) + events_text(b),
    decreases b.len(),
{
    if b.len() == 0 {
        assert(a + b =~= a);
        assert(events_text(a) + events_text(b) =~= events_text(a));
    } else {
        lemma_events_concat(a, b.drop_last());
        assert((a + b).drop_last() =~= a + b.drop_last());
        assert(events_text(a + b) =~= events_text(a) + events_text(b));
    }
}

/// Only the text of no events is empty.
pub proof fn lemma_events_empty(events: Seq<JsonView>)
    ensures
        events_text(events).len() == 0 <==> events.len() == 0,
{
    reveal_strlit("data: ");
}

/// The text of one event. The data in it can be read back.
pub fn sse(data: &Json) -> (r: String)
    ensures
        r@ == event_text(data@),
        reads_back(data@, encode_utf8(json_text(data@))),
{
    let mut text = "data: ".to_owned();
    text.append(data.to_text().as_str());
    text.append("\n\n");
    text
}

/// Appends the text of one event.
pub(crate) fn push_event(out: &mut String, event: &Json)
    ensures
        final(out)@ == old(out)@ + events_text(seq![event@]),
{
    proof {
        let one = seq![event@];
        assert(one.drop_last() =~= Seq::empty());
        assert(events_text(Seq::empty()) =~= Seq::empty());
        assert(events_text(one) =~= event_text(event@));
    }
    out.append(sse(event).as_str());
}

// ── Reading lines ──────────────────────────────────────────────────────────

/// The lines of a text that are complete, each with the line feed that ends it.
pub open spec fn complete_lines(text: Seq<char>) -> Seq<Seq<char>>
    decreases text.len(),
    via complete_lines_decreases
{
    let k = first_at(text, '\n');
    if k < text.len() {
        seq![text.take(k + 1)] + complete_lines(text.skip(k + 1))
    } else {
        Seq::empty()
    }
}

#[via_fn]
proof fn complete_lines_decreases(text: Seq<char>) {
    lemma_first_at(text, '\n');
}

/// What stands behind the last complete line of a text.
pub open spec fn last_line(text: Seq<char>) -> Seq<char>
    decreases text.len(),
    via last_line_decreases
{
    let k = first_at(text, '\n');
    if k < text.len() {
        last_line(text.skip(k + 1))
    } else {
        text
    }
}

#[via_fn]
proof fn last_line_decreases(text: Seq<char>) {
    lemma_first_at(text, '\n');
}

/// The lines, one after the other.
pub open spec fn all_lines(lines: Seq<Seq<char>>) -> Seq<char>
    decreases lines.len(),
{
    if lines.len() == 0 {
        Seq::empty()
    } else {
        lines[0] + all_lines(lines.skip(1))
    }
}

/// No character is lost or moved: the complete lines and what stands behind them are the text.
pub proof fn law_lines_keep_text(text: Seq<char>)
    ensures
        all_lines(complete_lines(text)) + last_line(text) == text,
    decreases text.len(),
{
    lemma_first_at(text, '\n');
    let k = first_at(text, '\n');
    if k < text.len() {
        law_lines_keep_text(text.skip(k + 1));
        let lines = complete_lines(text);
        assert(lines.skip(1) =~= complete_lines(text.skip(k + 1)));
        assert(all_lines(lines) + last_line(text) =~= text.take(k + 1) + text.skip(k + 1));
        assert(text.take(k + 1) + text.skip(k + 1) =~= text);
    } else {
        assert(Seq::<char>::empty() + text =~= text);
    }
}

/// How a stream is cut into pieces does not matter: reading one piece and then another gives
/// the lines of both together.
pub proof fn law_lines_of_pieces(a: Seq<char>, b: Seq<char>)
    ensures
        complete_lines(a + b) == complete_lines(a) + complete_lines(last_line(a) + b),
        last_line(a + b) == last_line(last_line(a) + b),
    decreases a.len(),
{
    lemma_first_at(a, '\n');
    let k = first_at(a, '\n');
    if k < a.len() {
        let both = a + b;
        assert forall|j: int| 0 <= j < k implies both[j] != '\n' by {
            assert(both[j] == a[j]);
        }
        lemma_first_at_unique(both, '\n', k);
        assert(both.take(k + 1) =~= a.take(k + 1));
        assert(both.skip(k + 1) =~= a.skip(k + 1) + b);
        law_lines_of_pieces(a.skip(k + 1), b);
        assert(complete_lines(both) =~= complete_lines(a) + complete_lines(last_line(a) + b));
    } else {
        assert(Seq::<Seq<char>>::empty() + complete_lines(a + b) =~= complete_lines(a + b));
    }
}

/// What has arrived of a line that is not complete.
pub struct LineBuffer {
    pub rest: String,
}

impl LineBuffer {
    /// Nothing has arrived.
    pub fn new() -> (r: Self)
        ensures
            r.rest@ == Seq::<char>::empty(),
    {
        LineBuffer { rest: String::new() }
    }

    /// Takes the next piece of the stream and hands out the lines that it completes.
    pub fn push(&mut self, piece: &str) -> (r: Vec<String>)
        ensures
            texts(r@) == complete_lines(old(self).rest@ + piece@),
            final(self).rest@ == last_line(old(self).rest@ + piece@),
    {
        let mut text = self.rest.clone();
        text.append(piece);
        let chars: Vec<char> = to_chars(text.as_str());
        let ghost all = chars@;
        let n: usize = chars.len();
        let mut lines: Vec<String> = Vec::new();
        let mut from: usize = 0;
        assert(all.skip(0) =~= all);
        assert(texts(lines@) + complete_lines(all) =~= complete_lines(all));
        let mut end: usize = find_from(&chars, 0, '\n');
        while end < n
            invariant
                chars@ == all,
                n == all.len(),
                from <= end <= n,
                end == from + first_at(all.skip(from as int), '\n'),
                texts(lines@) + complete_lines(all.skip(from as int)) == complete_lines(all),
                last_line(all.skip(from as int)) == last_line(all),
            decreases n - from,
        {
            let line = from_chars(&chars, from, end + 1);
            let ghost before = lines@;
            let ghost rest = all.skip(from as int);
            lines.push(line);
            proof {
                assert(line@ =~= rest.take(end - from + 1));
                assert(rest.skip(end - from + 1) =~= all.skip(end + 1));
                assert(texts(lines@) =~= texts(before).push(line@));
                assert(texts(lines@) + complete_lines(all.skip(end + 1)) =~= texts(before)
                    + complete_lines(rest));
            }
            from = end + 1;
            end = find_from(&chars, from, '\n');
        }
        self.rest = from_chars(&chars, from, n);
        proof {
            assert(all.subrange(from as int, n as int) =~= all.skip(from as int));
            assert(texts(lines@) + Seq::<Seq<char>>::empty() =~= texts(lines@));
        }
        lines
    }
}

/// An event is sent as its data, in one line, with an empty line behind it; events are sent one
/// after the other.
pub proof fn law_events_are_sent(events: Seq<JsonView>, event: JsonView)
    ensures
        events_text(Seq::empty()) == Seq::<char>::empty(),
        events_text(events.push(event)) == events_text(events) + ("data: "@ + json_text(event)
            + "\n\n"@),
{
    assert(events.push(event).drop_last() =~= events);
}

/// Every complete line ends with its only line feed, and what stands behind the last one has none.
pub proof fn law_lines_end_with_line_feeds(text: Seq<char>, i: int, j: int)
    ensures
        0 <= i < complete_lines(text).len() ==> {
            let line = complete_lines(text)[i];
            &&& line.len() > 0
            &&& line.last() == '\n'
            &&& 0 <= j < line.len() - 1 ==> line[j] != '\n'
        },
        0 <= j < last_line(text).len() ==> last_line(text)[j] != '\n',
    decreases text.len(),
{
    lemma_first_at(text, '\n');
    let k = first_at(text, '\n');
    if k < text.len() {
        law_lines_end_with_line_feeds(text.skip(k + 1), i - 1, j);
        let lines = complete_lines(text);
        if 0 < i < lines.len() {
            assert(lines[i] == complete_lines(text.skip(k + 1))[i - 1]);
        }
    }
}

}
