//! The attempts at a request: when it is sent, how long to wait before it is sent again, and
//! when the client gets an answer.
//!
//! The decisions are made here. Sending, waiting and passing on are done elsewhere, and come
//! back as events.

use crate::config::{ResolvedRouteConfig, SettingsView};
use crate::json::json_text;
use crate::reply::{error_body, error_reply, error_response, Reply, ReplyView};
use crate::retry::{
    compute_backoff_ms, compute_delay_ms, delay_of, exponential, is_backoff, is_retryable_status,
    law_backoff_range,
};
use crate::text::{decimal, decimal_string, opt_str};
use vstd::arithmetic::power2::pow2;
use vstd::prelude::*;
use vstd::string::StringExecFns;
use vstd::utf8::encode_utf8;

verus! {

broadcast use vstd::string::group_string_axioms;

// ── States, events, actions ────────────────────────────────────────────────

/// Where a request stands.
#[derive(Debug, Clone, Copy, PartialEq, Eq, Structural)]
pub enum Phase {
    /// Nothing has been sent.
    Start,
    /// The request has been sent to the upstream.
    Sending,
    /// The request will be sent again.
    Waiting,
    /// The answer of the upstream is being passed on.
    Relaying,
    /// The client has been answered, or is gone.
    Finished,
}

/// How far a request has come.
#[derive(Debug, Clone, Copy)]
pub struct Attempts {
    /// The number of attempts that failed.
    pub attempt: u32,
    /// The time spent waiting, and to be spent if the request is waiting.
    pub total_wait_ms: u128,
    pub phase: Phase,
}

/// What happens to a request.
#[derive(Debug)]
pub enum Event {
    /// It can be sent.
    Begin,
    /// The upstream answers; it may ask for a delay before the next attempt.
    Response { status: u16, retry_after_ms: Option<u64> },
    /// The upstream could not be reached.
    NetworkError(String),
    /// The wait is over.
    Elapsed,
    /// The client is gone.
    Disconnected,
    /// The answer of the upstream has been passed on.
    Ended,
}

/// What is to be done.
#[derive(Debug)]
pub enum Action {
    /// Send the request to the upstream.
    Send,
    /// Wait, in milliseconds.
    Wait(u64),
    /// Pass on the answer of the upstream, which has this status.
    Relay(u16),
    /// Answer the client.
    Reply(Reply),
    /// Close the connection to the upstream.
    Close,
    /// Nothing.
    Nothing,
}

/// What happens to a request.
pub enum EventView {
    Begin,
    Response { status: u16, retry_after_ms: Option<u64> },
    NetworkError(Seq<char>),
    Elapsed,
    Disconnected,
    Ended,
}

/// What is to be done.
pub enum ActionView {
    Send,
    Wait(u64),
    Relay(u16),
    Reply(ReplyView),
    Close,
    Nothing,
}

impl View for Event {
    type V = EventView;

    open spec fn view(&self) -> EventView {
        match self {
            Event::Begin => EventView::Begin,
            Event::Response { status, retry_after_ms } => EventView::Response {
                status: *status,
                retry_after_ms: *retry_after_ms,
            },
            Event::NetworkError(e) => EventView::NetworkError(e@),
            Event::Elapsed => EventView::Elapsed,
            Event::Disconnected => EventView::Disconnected,
            Event::Ended => EventView::Ended,
        }
    }
}

impl View for Action {
    type V = ActionView;

    open spec fn view(&self) -> ActionView {
        match self {
            Action::Send => ActionView::Send,
            Action::Wait(ms) => ActionView::Wait(*ms),
            Action::Relay(status) => ActionView::Relay(*status),
            Action::Reply(reply) => ActionView::Reply(reply@),
            Action::Close => ActionView::Close,
            Action::Nothing => ActionView::Nothing,
        }
    }
}

impl Attempts {
    /// No wait was longer than the machine can count.
    pub open spec fn wf(self) -> bool {
        self.total_wait_ms <= self.attempt * u64::MAX
    }

    /// The request counts as done.
    pub open spec fn finished(self) -> Attempts {
        Attempts { phase: Phase::Finished, ..self }
    }
}

/// A request of which nothing has been sent.
pub open spec fn untried() -> Attempts {
    Attempts { attempt: 0, total_wait_ms: 0, phase: Phase::Start }
}

/// A new state, and what is to be done.
pub struct Step {
    pub attempts: Attempts,
    pub action: ActionView,
}

// ── What follows from an event ─────────────────────────────────────────────

/// The answer if the upstream fails for good.
pub open spec fn gateway_error(message: Seq<char>) -> ReplyView {
    error_reply(502, message, "retry_proxy_upstream_failed"@)
}

/// The answer to a client that is gone.
pub open spec fn gone() -> ReplyView {
    error_reply(499, "retry-proxy: client disconnected"@, "retry_proxy_client_disconnected"@)
}

/// The message after too many attempts.
pub open spec fn exhausted_message(attempt: u32) -> Seq<char> {
    "retry-proxy: upstream request failed after "@ + decimal(attempt as nat)
        + " attempts (max retries exceeded)"@
}

/// The message after too many attempts, the last of which did not reach the upstream.
pub open spec fn unreachable_message(attempt: u32, error: Seq<char>) -> Seq<char> {
    "retry-proxy: upstream request failed after "@ + decimal((attempt + 1) as nat) + " attempts: "@
        + error
}

/// The message after too long a wait.
pub open spec fn budget_spent_message(budget: u64) -> Seq<char> {
    "retry-proxy: upstream request failed after total wait budget ("@ + decimal(budget as nat)
        + "ms) exceeded"@
}

/// The message if the next wait would be too long.
pub open spec fn budget_short_message(budget: u64, error: Option<Seq<char>>) -> Seq<char> {
    let message = "retry-proxy: upstream request failed after total wait budget ("@ + decimal(
        budget as nat,
    ) + "ms) would be exceeded"@;
    match error {
        Some(e) => message + ": "@ + e,
        None => message,
    }
}

/// The request is sent, unless it has been tried too often or has waited too long.
pub open spec fn begin_attempt(s: SettingsView, a: Attempts) -> Step {
    if a.attempt >= s.max_retries {
        Step {
            attempts: a.finished(),
            action: ActionView::Reply(gateway_error(exhausted_message(a.attempt))),
        }
    } else if s.max_total_wait_ms > 0 && a.total_wait_ms >= s.max_total_wait_ms {
        Step {
            attempts: a.finished(),
            action: ActionView::Reply(gateway_error(budget_spent_message(s.max_total_wait_ms))),
        }
    } else {
        Step { attempts: Attempts { phase: Phase::Sending, ..a }, action: ActionView::Send }
    }
}

/// The request waits, unless that would be too long.
pub open spec fn back_off(
    s: SettingsView,
    a: Attempts,
    delay: u64,
    error: Option<Seq<char>>,
) -> Step {
    if s.max_total_wait_ms > 0 && a.total_wait_ms + delay > s.max_total_wait_ms {
        Step {
            attempts: a.finished(),
            action: ActionView::Reply(
                gateway_error(budget_short_message(s.max_total_wait_ms, error)),
            ),
        }
    } else {
        Step {
            attempts: Attempts {
                attempt: (a.attempt + 1) as u32,
                total_wait_ms: (a.total_wait_ms + delay) as u128,
                phase: Phase::Waiting,
            },
            action: ActionView::Wait(delay),
        }
    }
}

/// The upstream has answered: the request is tried again, or the answer passed on.
pub open spec fn answered(
    s: SettingsView,
    a: Attempts,
    status: u16,
    retry_after_ms: Option<u64>,
    backoff_ms: u64,
) -> Step {
    if s.retry_status_codes.contains(status) && a.attempt < s.max_retries {
        back_off(s, a, delay_of(retry_after_ms, backoff_ms), None)
    } else {
        Step {
            attempts: Attempts { phase: Phase::Relaying, ..a },
            action: ActionView::Relay(status),
        }
    }
}

/// The upstream could not be reached: the request is tried again, unless it has been tried too
/// often.
pub open spec fn failed(s: SettingsView, a: Attempts, error: Seq<char>, backoff_ms: u64) -> Step {
    if a.attempt >= s.max_retries {
        Step {
            attempts: a.finished(),
            action: ActionView::Reply(gateway_error(unreachable_message(a.attempt, error))),
        }
    } else {
        back_off(s, a, delay_of(None, backoff_ms), Some(error))
    }
}

/// What follows from an event, given the backoff for a further attempt.
pub open spec fn next(s: SettingsView, a: Attempts, event: EventView, backoff_ms: u64) -> Step {
    match (a.phase, event) {
        (Phase::Start, EventView::Begin) => begin_attempt(s, a),
        (Phase::Waiting, EventView::Elapsed) => begin_attempt(s, a),
        (Phase::Sending, EventView::Response { status, retry_after_ms }) => answered(
            s,
            a,
            status,
            retry_after_ms,
            backoff_ms,
        ),
        (Phase::Sending, EventView::NetworkError(error)) => failed(s, a, error, backoff_ms),
        (Phase::Start | Phase::Sending | Phase::Waiting, EventView::Disconnected) => Step {
            attempts: a.finished(),
            action: ActionView::Reply(gone()),
        },
        (Phase::Relaying, EventView::Disconnected | EventView::Ended) => Step {
            attempts: a.finished(),
            action: ActionView::Close,
        },
        _ => Step { attempts: a, action: ActionView::Nothing },
    }
}

// ── The decisions ──────────────────────────────────────────────────────────

/// A string made of a text, a number and another text.
fn text_with_number(before: &str, n: u64, after: &str) -> (r: String)
    ensures
        r@ == before@ + decimal(n as nat) + after@,
{
    let mut text = before.to_owned();
    text.append(decimal_string(n).as_str());
    text.append(after);
    text
}

/// The answer if the upstream fails for good.
fn upstream_failed(message: &str) -> (r: Reply)
    ensures
        r@ == gateway_error(message@),
{
    error_response(502, message, "retry_proxy_upstream_failed")
}

impl Attempts {
    /// A request of which nothing has been sent.
    pub fn new() -> (r: Self)
        ensures
            r == untried(),
            r.wf(),
    {
        Attempts { attempt: 0, total_wait_ms: 0, phase: Phase::Start }
    }

    /// Sends the request, unless it has been tried too often or has waited too long.
    fn attempt(&mut self, settings: &ResolvedRouteConfig) -> (r: Action)
        requires
            old(self).wf(),
        ensures
            final(self).wf(),
            (Step { attempts: *final(self), action: r@ }) == begin_attempt(settings@, *old(self)),
    {
        if self.attempt >= settings.max_retries {
            self.phase = Phase::Finished;
            let message = text_with_number(
                "retry-proxy: upstream request failed after ",
                self.attempt as u64,
                " attempts (max retries exceeded)",
            );
            return Action::Reply(upstream_failed(message.as_str()));
        }
        let budget: u64 = settings.max_total_wait_ms;
        if budget > 0 && self.total_wait_ms >= budget as u128 {
            self.phase = Phase::Finished;
            let message = text_with_number(
                "retry-proxy: upstream request failed after total wait budget (",
                budget,
                "ms) exceeded",
            );
            return Action::Reply(upstream_failed(message.as_str()));
        }
        self.phase = Phase::Sending;
        Action::Send
    }

    /// Waits before the next attempt, unless that would be too long.
    fn back_off(
        &mut self,
        settings: &ResolvedRouteConfig,
        delay: u64,
        error: Option<&str>,
    ) -> (r: Action)
        requires
            old(self).wf(),
            old(self).attempt < settings.max_retries,
        ensures
            final(self).wf(),
            (Step { attempts: *final(self), action: r@ }) == back_off(
                settings@,
                *old(self),
                delay,
                opt_str(error),
            ),
    {
        let budget: u64 = settings.max_total_wait_ms;
        let total: u128 = self.total_wait_ms + delay as u128;
        if budget > 0 && total > budget as u128 {
            self.phase = Phase::Finished;
            let mut message = text_with_number(
                "retry-proxy: upstream request failed after total wait budget (",
                budget,
                "ms) would be exceeded",
            );
            if let Some(e) = error {
                message.append(": ");
                message.append(e);
            }
            return Action::Reply(upstream_failed(message.as_str()));
        }
        self.attempt = self.attempt + 1;
        self.total_wait_ms = total;
        self.phase = Phase::Waiting;
        Action::Wait(delay)
    }

    /// Decides what follows from an event, given the backoff for a further attempt.
    pub fn step_with(
        &mut self,
        settings: &ResolvedRouteConfig,
        event: Event,
        backoff_ms: u64,
    ) -> (r: Action)
        requires
            old(self).wf(),
        ensures
            final(self).wf(),
            (Step { attempts: *final(self), action: r@ }) == next(
                settings@,
                *old(self),
                event@,
                backoff_ms,
            ),
    {
        match (self.phase, event) {
            (Phase::Start, Event::Begin) => self.attempt(settings),
            (Phase::Waiting, Event::Elapsed) => self.attempt(settings),
            (Phase::Sending, Event::Response { status, retry_after_ms }) => {
                let retryable = is_retryable_status(
                    status,
                    settings.retry_status_codes.as_slice(),
                );
                if retryable && self.attempt < settings.max_retries {
                    self.back_off(settings, compute_delay_ms(retry_after_ms, backoff_ms), None)
                } else {
                    self.phase = Phase::Relaying;
                    Action::Relay(status)
                }
            },
            (Phase::Sending, Event::NetworkError(error)) => {
                if self.attempt >= settings.max_retries {
                    self.phase = Phase::Finished;
                    let mut message = text_with_number(
                        "retry-proxy: upstream request failed after ",
                        self.attempt as u64 + 1,
                        " attempts: ",
                    );
                    message.append(error.as_str());
                    Action::Reply(upstream_failed(message.as_str()))
                } else {
                    self.back_off(
                        settings,
                        compute_delay_ms(None, backoff_ms),
                        Some(error.as_str()),
                    )
                }
            },
            (Phase::Start | Phase::Sending | Phase::Waiting, Event::Disconnected) => {
                self.phase = Phase::Finished;
                Action::Reply(
                    error_response(
                        499,
                        "retry-proxy: client disconnected",
                        "retry_proxy_client_disconnected",
                    ),
                )
            },
            (Phase::Relaying, Event::Disconnected | Event::Ended) => {
                self.phase = Phase::Finished;
                Action::Close
            },
            _ => Action::Nothing,
        }
    }

    /// Decides what follows from an event. The backoff for a further attempt holds jitter.
    pub fn step(&mut self, settings: &ResolvedRouteConfig, event: Event) -> (r: Action)
        requires
            old(self).wf(),
        ensures
            final(self).wf(),
            exists|backoff_ms: u64|
                {
                    &&& is_backoff(
                        settings.base_delay_ms,
                        settings.max_delay_ms,
                        old(self).attempt,
                        backoff_ms,
                    )
                    &&& (Step { attempts: *final(self), action: r@ }) == #[trigger] next(
                        settings@,
                        *old(self),
                        event@,
                        backoff_ms,
                    )
                },
            waits_in_bounds(settings@, *old(self), event@, r@),
    {
        let backoff_ms: u64 = compute_backoff_ms(
            settings.base_delay_ms,
            settings.max_delay_ms,
            self.attempt,
        );
        proof {
            law_waits_are_in_bounds(settings@, *self, event@, backoff_ms);
        }
        self.step_with(settings, event, backoff_ms)
    }
}

// ── Runs ───────────────────────────────────────────────────────────────────

/// An event, and the backoff for a further attempt.
pub struct Happening {
    pub event: EventView,
    pub backoff_ms: u64,
}

/// Where a request stands after what happened to it, and what was done.
pub open spec fn run(s: SettingsView, happened: Seq<Happening>) -> (Attempts, Seq<ActionView>)
    decreases happened.len(),
{
    if happened.len() == 0 {
        (untried(), Seq::empty())
    } else {
        let (a, done) = run(s, happened.drop_last());
        let step = next(s, a, happened.last().event, happened.last().backoff_ms);
        (step.attempts, done.push(step.action))
    }
}

/// How often the request was sent.
pub open spec fn sends(done: Seq<ActionView>) -> int
    decreases done.len(),
{
    if done.len() == 0 {
        0
    } else {
        sends(done.drop_last()) + if done.last() is Send {
            1int
        } else {
            0
        }
    }
}

/// How long the request waited.
pub open spec fn waited(done: Seq<ActionView>) -> int
    decreases done.len(),
{
    if done.len() == 0 {
        0
    } else {
        waited(done.drop_last()) + match done.last() {
            ActionView::Wait(ms) => ms as int,
            _ => 0,
        }
    }
}

/// How often the client was answered.
pub open spec fn answers(done: Seq<ActionView>) -> int
    decreases done.len(),
{
    if done.len() == 0 {
        0
    } else {
        answers(done.drop_last()) + if done.last() is Relay || done.last() is Reply {
            1int
        } else {
            0
        }
    }
}

/// What holds of every run.
proof fn lemma_run(s: SettingsView, happened: Seq<Happening>)
    ensures
        ({
            let (a, done) = run(s, happened);
            &&& a.wf()
            &&& a.total_wait_ms == waited(done)
            &&& s.max_total_wait_ms > 0 ==> a.total_wait_ms <= s.max_total_wait_ms
            &&& sends(done) <= s.max_retries
            &&& match a.phase {
                Phase::Start => a.attempt == 0 && sends(done) == 0 && answers(done) == 0,
                Phase::Sending => a.attempt < s.max_retries && sends(done) == a.attempt + 1
                    && answers(done) == 0,
                Phase::Waiting => a.attempt <= s.max_retries && sends(done) == a.attempt && answers(
                    done,
                ) == 0,
                Phase::Relaying => sends(done) == a.attempt + 1 && answers(done) == 1,
                Phase::Finished => answers(done) == 1,
            }
        }),
    decreases happened.len(),
{
    if happened.len() > 0 {
        lemma_run(s, happened.drop_last());
        let (a, done) = run(s, happened.drop_last());
        let step = next(s, a, happened.last().event, happened.last().backoff_ms);
        assert(done.push(step.action).drop_last() =~= done);
    }
}

/// The request is sent at most as often as it may be tried.
pub proof fn law_attempts_are_limited(s: SettingsView, happened: Seq<Happening>)
    ensures
        sends(run(s, happened).1) <= s.max_retries,
{
    lemma_run(s, happened);
}

/// The request waits no longer in all than it may, if there is a limit; the time that is
/// counted is the time that it waited.
pub proof fn law_waiting_is_limited(s: SettingsView, happened: Seq<Happening>)
    ensures
        run(s, happened).0.total_wait_ms == waited(run(s, happened).1),
        s.max_total_wait_ms > 0 ==> waited(run(s, happened).1) <= s.max_total_wait_ms,
{
    lemma_run(s, happened);
}

/// The client is answered at most once, and is answered when the request is finished.
pub proof fn law_one_answer(s: SettingsView, happened: Seq<Happening>)
    ensures
        answers(run(s, happened).1) <= 1,
        answers(run(s, happened).1) == 1 <==> (run(s, happened).0.phase is Relaying || run(
            s,
            happened,
        ).0.phase is Finished),
{
    lemma_run(s, happened);
}

/// Once the client is being answered, nothing is sent, nothing waits and no other answer is
/// given, whatever happens: a stream that has started is not tried again.
pub proof fn law_no_retry_after_answer(
    s: SettingsView,
    before: Seq<Happening>,
    after: Seq<Happening>,
)
    requires
        answers(run(s, before).1) == 1,
    ensures
        ({
            let done = run(s, before + after).1;
            &&& run(s, before).1.is_prefix_of(done)
            &&& done.len() == before.len() + after.len()
            &&& forall|i: int|
                before.len() <= i < done.len() ==> (#[trigger] done[i] is Close
                    || done[i] is Nothing)
        }),
    decreases after.len(),
{
    lemma_actions(s, before);
    if after.len() == 0 {
        assert(before + after =~= before);
    } else {
        let earlier = before + after.drop_last();
        law_no_retry_after_answer(s, before, after.drop_last());
        assert((before + after).drop_last() =~= earlier);
        assert((before + after).last() == after.last());
        lemma_run(s, before);
        lemma_run(s, earlier);
        lemma_answers_grow(run(s, before).1, run(s, earlier).1);
        let done = run(s, before + after).1;
        assert(done.drop_last() =~= run(s, earlier).1);
    }
}

/// There is one action for each event.
proof fn lemma_actions(s: SettingsView, happened: Seq<Happening>)
    ensures
        run(s, happened).1.len() == happened.len(),
    decreases happened.len(),
{
    if happened.len() > 0 {
        lemma_actions(s, happened.drop_last());
    }
}

/// An answer that was given stays given.
proof fn lemma_answers_grow(before: Seq<ActionView>, done: Seq<ActionView>)
    requires
        before.is_prefix_of(done),
    ensures
        answers(before) <= answers(done),
    decreases done.len(),
{
    if before.len() < done.len() {
        assert(before.is_prefix_of(done.drop_last()));
        lemma_answers_grow(before, done.drop_last());
    } else {
        assert(before =~= done);
    }
}

/// A client that goes away stops everything at once, also while the request waits: what is
/// done is to answer, or to close what is being passed on, and the request is finished.
pub proof fn law_disconnect_stops(s: SettingsView, happened: Seq<Happening>, backoff_ms: u64)
    ensures
        ({
            let a = run(s, happened).0;
            let step = next(s, a, EventView::Disconnected, backoff_ms);
            &&& step.attempts.phase is Finished
            &&& match a.phase {
                Phase::Start | Phase::Sending | Phase::Waiting => step.action == ActionView::Reply(
                    gone(),
                ),
                Phase::Relaying => step.action is Close,
                Phase::Finished => step.action is Nothing,
            }
        }),
{
}

/// No wait is longer than the longest delay, or than what the upstream asks for.
pub proof fn law_delay_is_capped(
    s: SettingsView,
    a: Attempts,
    event: EventView,
    backoff_ms: u64,
    delay: u64,
)
    requires
        is_backoff(s.base_delay_ms, s.max_delay_ms, a.attempt, backoff_ms),
        next(s, a, event, backoff_ms).action == ActionView::Wait(delay),
    ensures
        delay <= s.max_delay_ms,
        delay <= exponential(s.base_delay_ms, s.max_delay_ms, a.attempt),
        event matches EventView::Response { status, retry_after_ms: Some(ra) } ==> delay <= ra,
        !(event matches EventView::Response { status, retry_after_ms: Some(ra) }) ==> delay
            == backoff_ms,
{
}

/// Whether an event is a failure that is worth another attempt.
pub open spec fn is_failure(s: SettingsView, event: EventView) -> bool {
    match event {
        EventView::Response { status, .. } => s.retry_status_codes.contains(status),
        EventView::NetworkError(_) => true,
        _ => false,
    }
}

/// The request is sent, and after each failure, when the wait is over, sent again.
pub open spec fn with_waits(failures: Seq<Happening>) -> Seq<Happening>
    decreases failures.len(),
{
    if failures.len() == 0 {
        seq![Happening { event: EventView::Begin, backoff_ms: 0 }]
    } else {
        with_waits(failures.drop_last()).push(failures.last()).push(
            Happening { event: EventView::Elapsed, backoff_ms: 0 },
        )
    }
}

/// Without a limit on the time, a request is tried again after every failure until it has been
/// tried as often as it may be: after fewer failures it is on its way to the upstream, and the
/// first answer that is no failure is passed on.
pub proof fn law_retries_until_success(
    s: SettingsView,
    failures: Seq<Happening>,
    status: u16,
    retry_after_ms: Option<u64>,
    backoff_ms: u64,
)
    requires
        s.max_total_wait_ms == 0,
        failures.len() < s.max_retries,
        forall|i: int|
            0 <= i < failures.len() ==> is_failure(s, (#[trigger] failures[i]).event),
        !s.retry_status_codes.contains(status),
    ensures
        ({
            let (a, done) = run(s, with_waits(failures));
            let answer = EventView::Response { status, retry_after_ms };
            &&& a.phase is Sending
            &&& a.attempt == failures.len()
            &&& sends(done) == failures.len() + 1
            &&& next(s, a, answer, backoff_ms).action == ActionView::Relay(status)
        }),
    decreases failures.len(),
{
    if failures.len() == 0 {
        let all = with_waits(failures);
        assert(all.drop_last() =~= Seq::empty());
        assert(run(s, all.drop_last()) == (untried(), Seq::<ActionView>::empty()));
        assert(run(s, all).0.phase is Sending);
    } else {
        let earlier = failures.drop_last();
        assert forall|i: int| 0 <= i < earlier.len() implies is_failure(
            s,
            (#[trigger] earlier[i]).event,
        ) by {
            assert(earlier[i] == failures[i]);
        }
        law_retries_until_success(s, earlier, status, retry_after_ms, backoff_ms);
        let all = with_waits(failures);
        let failed = all.drop_last();
        assert(failed =~= with_waits(earlier).push(failures.last()));
        assert(failed.drop_last() =~= with_waits(earlier));
        assert(is_failure(s, failures[failures.len() - 1].event));
        assert(run(s, failed).0.phase is Waiting);
        assert(run(s, all).0.phase is Sending);
    }
    lemma_run(s, with_waits(failures));
}

/// An answer with any other status is passed on at once, whatever the request has gone
/// through.
pub proof fn law_other_statuses_pass(
    s: SettingsView,
    a: Attempts,
    status: u16,
    retry_after_ms: Option<u64>,
    backoff_ms: u64,
)
    requires
        a.phase is Sending,
        !s.retry_status_codes.contains(status),
    ensures
        next(s, a, EventView::Response { status, retry_after_ms }, backoff_ms) == (Step {
            attempts: Attempts { phase: Phase::Relaying, ..a },
            action: ActionView::Relay(status),
        }),
{
}

/// A request that has failed as often as it may be tried is answered with an error, and is not
/// sent.
pub proof fn law_exhausted(s: SettingsView, a: Attempts, backoff_ms: u64)
    requires
        a.phase is Waiting,
        a.attempt >= s.max_retries,
    ensures
        next(s, a, EventView::Elapsed, backoff_ms).action == ActionView::Reply(
            gateway_error(exhausted_message(a.attempt)),
        ),
{
}

// ── Giving up, and not giving up ───────────────────────────────────────────

/// How long a request waits after a failure: what the upstream asks for, if that is shorter than
/// the backoff, and the backoff otherwise.
pub open spec fn wait_after(event: EventView, backoff_ms: u64) -> u64 {
    match event {
        EventView::Response { status, retry_after_ms: Some(asked) } if asked < backoff_ms => asked,
        _ => backoff_ms,
    }
}

/// With attempts left, a failure that is worth another attempt leads to a wait if there is no
/// limit on the time, or if the time waited so far and the wait together do not exceed it, and to
/// an error for the client if they do. Nothing else has a say in it.
pub proof fn law_budget_decides(s: SettingsView, a: Attempts, event: EventView, backoff_ms: u64)
    requires
        a.phase is Sending,
        a.wf(),
        a.attempt < s.max_retries,
        match event {
            EventView::Response { status, .. } => s.retry_status_codes.contains(status),
            EventView::NetworkError(_) => true,
            _ => false,
        },
    ensures
        ({
            let step = next(s, a, event, backoff_ms);
            let wait = wait_after(event, backoff_ms);
            let fits = s.max_total_wait_ms == 0 || a.total_wait_ms + wait <= s.max_total_wait_ms;
            &&& fits ==> {
                &&& step.action == ActionView::Wait(wait)
                &&& step.attempts.phase is Waiting
                &&& step.attempts.attempt == a.attempt + 1
                &&& step.attempts.total_wait_ms == a.total_wait_ms + wait
            }
            &&& !fits ==> {
                &&& step.action matches ActionView::Reply(reply) && reply.status == 502
                &&& step.attempts.phase is Finished
            }
        }),
{
    assert(a.total_wait_ms + u64::MAX <= u128::MAX) by {
        assert(a.attempt * u64::MAX <= u32::MAX * u64::MAX) by (nonlinear_arith)
            requires
                a.attempt <= u32::MAX,
        ;
    }
}

/// A request that waited is sent again when the wait is over, if attempts are left and the time
/// that it has waited is below the limit; otherwise the client gets an error. So is a request of
/// which nothing has been sent.
pub proof fn law_wait_is_followed_by_an_attempt(
    s: SettingsView,
    a: Attempts,
    event: EventView,
    backoff_ms: u64,
)
    requires
        (a.phase is Waiting && event is Elapsed) || (a.phase is Start && event is Begin),
    ensures
        ({
            let step = next(s, a, event, backoff_ms);
            let allowed = a.attempt < s.max_retries && (s.max_total_wait_ms == 0 || a.total_wait_ms
                < s.max_total_wait_ms);
            &&& step.attempts.attempt == a.attempt
            &&& step.attempts.total_wait_ms == a.total_wait_ms
            &&& allowed ==> step.action is Send && step.attempts.phase is Sending
            &&& !allowed ==> {
                &&& step.action matches ActionView::Reply(reply) && reply.status == 502
                &&& step.attempts.phase is Finished
            }
        }),
{
}

/// An answer that is not worth another attempt is passed on with its status; so is any answer when
/// no attempts are left. An upstream that cannot be reached then gives the client an error.
pub proof fn law_last_attempt(s: SettingsView, a: Attempts, event: EventView, backoff_ms: u64)
    requires
        a.phase is Sending,
    ensures
        ({
            let step = next(s, a, event, backoff_ms);
            match event {
                EventView::Response { status, .. } => (!s.retry_status_codes.contains(status)
                    || a.attempt >= s.max_retries) ==> {
                    &&& step.action == ActionView::Relay(status)
                    &&& step.attempts.phase is Relaying
                },
                EventView::NetworkError(_) => a.attempt >= s.max_retries ==> {
                    &&& step.action matches ActionView::Reply(reply) && reply.status == 502
                    &&& step.attempts.phase is Finished
                },
                _ => true,
            }
        }),
{
}

/// The waits after failures, one after the other.
pub open spec fn waits_after(failures: Seq<Happening>) -> int
    decreases failures.len(),
{
    if failures.len() == 0 {
        0
    } else {
        waits_after(failures.drop_last()) + wait_after(
            failures.last().event,
            failures.last().backoff_ms,
        )
    }
}

/// With a limit on the time too, a request is tried again after every failure until it has been
/// tried as often as it may be, as long as the waits together stay below the limit: after fewer
/// failures it is on its way to the upstream, has been sent once more than it failed, has waited
/// exactly as long as the waits tell, and the first answer that is no failure is passed on.
pub proof fn law_retries_within_budget(
    s: SettingsView,
    failures: Seq<Happening>,
    status: u16,
    retry_after_ms: Option<u64>,
    backoff_ms: u64,
)
    requires
        failures.len() < s.max_retries,
        s.max_total_wait_ms == 0 || waits_after(failures) < s.max_total_wait_ms,
        forall|i: int|
            0 <= i < failures.len() ==> is_failure(s, (#[trigger] failures[i]).event),
        !s.retry_status_codes.contains(status),
    ensures
        ({
            let (a, done) = run(s, with_waits(failures));
            let answer = EventView::Response { status, retry_after_ms };
            &&& a.phase is Sending
            &&& a.attempt == failures.len()
            &&& a.total_wait_ms == waits_after(failures)
            &&& sends(done) == failures.len() + 1
            &&& waited(done) == waits_after(failures)
            &&& answers(done) == 0
            &&& next(s, a, answer, backoff_ms).action == ActionView::Relay(status)
        }),
    decreases failures.len(),
{
    if failures.len() == 0 {
        let all = with_waits(failures);
        assert(all.drop_last() =~= Seq::empty());
        assert(run(s, all.drop_last()) == (untried(), Seq::<ActionView>::empty()));
        assert(run(s, all).0.phase is Sending);
    } else {
        let earlier = failures.drop_last();
        assert forall|i: int| 0 <= i < earlier.len() implies is_failure(
            s,
            (#[trigger] earlier[i]).event,
        ) by {
            assert(earlier[i] == failures[i]);
        }
        law_retries_within_budget(s, earlier, status, retry_after_ms, backoff_ms);
        let all = with_waits(failures);
        let failed = all.drop_last();
        assert(failed =~= with_waits(earlier).push(failures.last()));
        assert(failed.drop_last() =~= with_waits(earlier));
        assert(is_failure(s, failures[failures.len() - 1].event));
        lemma_run(s, with_waits(earlier));
        let a = run(s, with_waits(earlier)).0;
        law_budget_decides(s, a, failures.last().event, failures.last().backoff_ms);
        law_wait_is_followed_by_an_attempt(s, run(s, failed).0, EventView::Elapsed, 0);
    }
    lemma_run(s, with_waits(failures));
}

/// Every wait is the shorter of what the upstream asks for and the backoff, which lies between the
/// half and the whole of the delay that doubles with each attempt, up to the longest delay.
pub proof fn law_wait_lies_between(
    s: SettingsView,
    a: Attempts,
    event: EventView,
    backoff_ms: u64,
    delay: u64,
)
    requires
        is_backoff(s.base_delay_ms, s.max_delay_ms, a.attempt, backoff_ms),
        next(s, a, event, backoff_ms).action == ActionView::Wait(delay),
    ensures
        delay == wait_after(event, backoff_ms),
        delay <= s.max_delay_ms,
        !(event matches EventView::Response { status, retry_after_ms: Some(ra) }) ==> ({
            let whole = s.base_delay_ms * pow2(a.attempt as nat);
            let limit = if whole <= s.max_delay_ms {
                whole
            } else {
                s.max_delay_ms as int
            };
            limit / 2 <= delay <= limit
        }),
{
    law_backoff_range(s.base_delay_ms, s.max_delay_ms, a.attempt, backoff_ms);
}

/// Why a request is given up: the client is gone, it has been tried too often, or it has waited, or
/// would wait, too long.
pub open spec fn reason(s: SettingsView, a: Attempts, event: EventView) -> Seq<char> {
    let often = "retry-proxy: upstream request failed after "@;
    let long = "retry-proxy: upstream request failed after total wait budget ("@ + decimal(
        s.max_total_wait_ms as nat,
    );
    match event {
        EventView::Disconnected => "retry-proxy: client disconnected"@,
        EventView::Begin | EventView::Elapsed => if a.attempt >= s.max_retries {
            often + decimal(a.attempt as nat) + " attempts (max retries exceeded)"@
        } else {
            long + "ms) exceeded"@
        },
        EventView::NetworkError(e) => if a.attempt >= s.max_retries {
            often + decimal((a.attempt + 1) as nat) + " attempts: "@ + e
        } else {
            long + "ms) would be exceeded"@ + ": "@ + e
        },
        _ => long + "ms) would be exceeded"@,
    }
}

/// What the client is told when the request is given up: that it failed, after how many attempts
/// or because of which limit, and why the last attempt failed, if the upstream could not be
/// reached.
pub proof fn law_errors_tell_why(
    s: SettingsView,
    a: Attempts,
    event: EventView,
    backoff_ms: u64,
    reply: ReplyView,
)
    requires
        next(s, a, event, backoff_ms).action == ActionView::Reply(reply),
    ensures
        event is Disconnected ==> reply.status == 499 && reply.body == encode_utf8(
            json_text(error_body(reason(s, a, event), "retry_proxy_client_disconnected"@)),
        ),
        !(event is Disconnected) ==> reply.status == 502 && reply.body == encode_utf8(
            json_text(error_body(reason(s, a, event), "retry_proxy_upstream_failed"@)),
        ),
{
}

/// A wait lies between the half and the whole of the delay that doubles with each attempt, up to the
/// longest delay, unless the upstream asks for less.
pub open spec fn waits_in_bounds(
    s: SettingsView,
    a: Attempts,
    event: EventView,
    action: ActionView,
) -> bool {
    let doubled = s.base_delay_ms * pow2(a.attempt as nat);
    let whole = if doubled <= s.max_delay_ms {
        doubled
    } else {
        s.max_delay_ms as int
    };
    action matches ActionView::Wait(delay) ==> {
        &&& delay <= whole
        &&& match event {
            EventView::Response { status, retry_after_ms: Some(asked) } => delay == asked || delay
                >= whole / 2,
            _ => delay >= whole / 2,
        }
    }
}

/// Every wait is in its bounds.
pub proof fn law_waits_are_in_bounds(s: SettingsView, a: Attempts, event: EventView, backoff_ms: u64)
    requires
        is_backoff(s.base_delay_ms, s.max_delay_ms, a.attempt, backoff_ms),
    ensures
        waits_in_bounds(s, a, event, next(s, a, event, backoff_ms).action),
{
    law_backoff_range(s.base_delay_ms, s.max_delay_ms, a.attempt, backoff_ms);
}

/// When an answer has been passed on, or its client is gone, the connection is closed and the
/// request is finished; nothing happens to a request that is finished, and an event that does not
/// belong to where a request stands changes nothing.
pub proof fn law_end_of_a_request(s: SettingsView, a: Attempts, event: EventView, backoff_ms: u64)
    ensures
        ({
            let step = next(s, a, event, backoff_ms);
            &&& a.phase is Relaying && (event is Ended || event is Disconnected) ==> step.action
                is Close && step.attempts.phase is Finished
            &&& a.phase is Finished ==> step.action is Nothing && step.attempts == a
            &&& a.phase is Relaying && !(event is Ended || event is Disconnected) ==> step.action
                is Nothing && step.attempts == a
            &&& a.phase is Waiting && !(event is Elapsed || event is Disconnected) ==> step.action
                is Nothing && step.attempts == a
            &&& a.phase is Start && !(event is Begin || event is Disconnected) ==> step.action
                is Nothing && step.attempts == a
            &&& a.phase is Sending && !(event is Response || event is NetworkError || event
                is Disconnected) ==> step.action is Nothing && step.attempts == a
        }),
{
}

}
