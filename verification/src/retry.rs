//! When a request is tried again, and after how long.

use crate::clock::unix_millis;
use crate::headers::{field_text, header_fields, header_text, simple_name};
use crate::text::{law_trimmed, law_usual_white_space, opt_text, trim, trimmed};
use vstd::arithmetic::power2::{
    lemma2_to64, lemma_pow2_adds, lemma_pow2_pos, lemma_pow2_unfold, pow2,
};
use vstd::prelude::*;

verus! {

broadcast use vstd::string::group_string_axioms;

// ── Backoff ────────────────────────────────────────────────────────────────

/// The smaller of two numbers.
pub open spec fn least(a: int, b: int) -> int {
    if a <= b {
        a
    } else {
        b
    }
}

/// The delay that doubles with each attempt, up to a limit.
pub open spec fn exponential(base_delay_ms: u64, max_delay_ms: u64, attempt: u32) -> int {
    least(base_delay_ms * pow2(attempt as nat), max_delay_ms as int)
}

/// `rand::thread_rng` and `gen_range` over `0..=limit`: some number up to the limit.
#[verifier::external_body]
fn random_up_to(limit: u64) -> (r: u64)
    ensures
        r <= limit,
{
    rand::Rng::gen_range(&mut rand::thread_rng(), 0..=limit)
}

/// Doubling more often gives at least as much.
proof fn lemma_doubling(base: u64, i: u32, attempt: u32)
    requires
        i <= attempt,
    ensures
        base * pow2(i as nat) <= base * pow2(attempt as nat),
        i < attempt ==> 2 * (base * pow2(i as nat)) <= base * pow2(attempt as nat),
{
    let a = pow2(i as nat);
    let b = pow2((attempt - i) as nat);
    lemma_pow2_adds(i as nat, (attempt - i) as nat);
    lemma_pow2_pos(i as nat);
    lemma_pow2_pos((attempt - i) as nat);
    if i < attempt {
        lemma_pow2_unfold((attempt - i) as nat);
        lemma_pow2_pos((attempt - i - 1) as nat);
        assert(b >= 2);
        assert(2 * (base * a) <= base * (a * b)) by (nonlinear_arith)
            requires
                b >= 2,
                a > 0,
                base >= 0,
        ;
    }
    assert(base * a <= base * (a * b)) by (nonlinear_arith)
        requires
            b >= 1,
            a > 0,
            base >= 0,
    ;
}

/// The delay that doubles with each attempt, up to a limit.
fn exponential_ms(base_delay_ms: u64, max_delay_ms: u64, attempt: u32) -> (r: u64)
    ensures
        r == exponential(base_delay_ms, max_delay_ms, attempt),
{
    proof {
        lemma2_to64();
    }
    if base_delay_ms == 0 {
        return 0;
    }
    let mut delay: u64 = base_delay_ms;
    let mut i: u32 = 0;
    while i < attempt && delay < max_delay_ms
        invariant
            i <= attempt,
            delay == base_delay_ms * pow2(i as nat),
        decreases attempt - i,
    {
        proof {
            lemma_doubling(base_delay_ms, i, attempt);
            lemma_pow2_unfold((i + 1) as nat);
            assert(base_delay_ms * (2 * pow2(i as nat)) == 2 * (base_delay_ms * pow2(i as nat)))
                by (nonlinear_arith);
        }
        if delay > max_delay_ms / 2 {
            return max_delay_ms;
        }
        delay = delay * 2;
        i += 1;
    }
    proof {
        lemma_doubling(base_delay_ms, i, attempt);
    }
    if delay <= max_delay_ms {
        delay
    } else {
        max_delay_ms
    }
}

/// The delay before a retry: half of the exponential delay, and `jitter` up to the other half.
/// The first retry comes after attempt 0.
pub open spec fn jittered(base_delay_ms: u64, max_delay_ms: u64, attempt: u32, jitter: int) -> int {
    exponential(base_delay_ms, max_delay_ms, attempt) / 2 + jitter
}

/// The delay before a retry, given the jitter.
pub fn backoff_with_jitter(
    base_delay_ms: u64,
    max_delay_ms: u64,
    attempt: u32,
    jitter: u64,
) -> (r: u64)
    requires
        jitter <= exponential(base_delay_ms, max_delay_ms, attempt) / 2,
    ensures
        r == jittered(base_delay_ms, max_delay_ms, attempt, jitter as int),
{
    exponential_ms(base_delay_ms, max_delay_ms, attempt) / 2 + jitter
}

/// Whether `delay` may come out as the delay before a retry.
pub open spec fn is_backoff(
    base_delay_ms: u64,
    max_delay_ms: u64,
    attempt: u32,
    delay: u64,
) -> bool {
    exists|jitter: int|
        {
            &&& 0 <= jitter <= exponential(base_delay_ms, max_delay_ms, attempt) / 2
            &&& delay == #[trigger] jittered(base_delay_ms, max_delay_ms, attempt, jitter)
        }
}

/// The delay before a retry, with equal jitter: at least half of the exponential delay, at
/// most the whole of it.
pub fn compute_backoff_ms(base_delay_ms: u64, max_delay_ms: u64, attempt: u32) -> (r: u64)
    ensures
        is_backoff(base_delay_ms, max_delay_ms, attempt, r),
        exponential(base_delay_ms, max_delay_ms, attempt) / 2 <= r,
        r <= exponential(base_delay_ms, max_delay_ms, attempt),
        r <= max_delay_ms,
{
    let half: u64 = exponential_ms(base_delay_ms, max_delay_ms, attempt) / 2;
    let jitter: u64 = random_up_to(half);
    backoff_with_jitter(base_delay_ms, max_delay_ms, attempt, jitter)
}

/// The bounds of the delay double from one attempt to the next until they reach the limit, and
/// never shrink.
pub proof fn law_backoff_grows(base_delay_ms: u64, max_delay_ms: u64, attempt: u32)
    requires
        attempt < u32::MAX,
    ensures
        exponential(base_delay_ms, max_delay_ms, (attempt + 1) as u32) == least(
            2 * exponential(base_delay_ms, max_delay_ms, attempt),
            max_delay_ms as int,
        ),
        exponential(base_delay_ms, max_delay_ms, attempt) <= exponential(
            base_delay_ms,
            max_delay_ms,
            (attempt + 1) as u32,
        ),
        exponential(base_delay_ms, max_delay_ms, 0) == least(
            base_delay_ms as int,
            max_delay_ms as int,
        ),
{
    lemma2_to64();
    lemma_pow2_unfold((attempt + 1) as nat);
    let p = pow2(attempt as nat);
    assert(base_delay_ms * (2 * p) == 2 * (base_delay_ms * p)) by (nonlinear_arith);
    assert(0 <= base_delay_ms * p) by (nonlinear_arith)
        requires
            base_delay_ms >= 0,
            p >= 0,
    ;
}

/// The delay that doubles with each attempt is the first delay times a power of two, unless that is
/// longer than the longest delay; what may come out with jitter is exactly what lies between the
/// half and the whole of it, where an odd millisecond is lost.
pub proof fn law_backoff_range(base_delay_ms: u64, max_delay_ms: u64, attempt: u32, delay: u64)
    ensures
        ({
            let doubled = base_delay_ms * pow2(attempt as nat);
            let whole = if doubled <= max_delay_ms {
                doubled
            } else {
                max_delay_ms as int
            };
            &&& exponential(base_delay_ms, max_delay_ms, attempt) == whole
            &&& is_backoff(base_delay_ms, max_delay_ms, attempt, delay) <==> whole / 2 <= delay
                <= 2 * (whole / 2)
        }),
{
    let whole = exponential(base_delay_ms, max_delay_ms, attempt);
    if whole / 2 <= delay <= 2 * (whole / 2) {
        assert(delay == jittered(base_delay_ms, max_delay_ms, attempt, delay - whole / 2));
    }
}

// ── Retry-After ────────────────────────────────────────────────────────────

/// What `httpdate` reads in a text, in milliseconds since the Unix epoch, if it is an HTTP
/// date.
pub uninterp spec fn http_date_ms(text: Seq<char>) -> Option<u64>;

/// `httpdate::parse_http_date`, with the point in time turned into milliseconds since the Unix
/// epoch. A text that is not an HTTP date gives nothing.
#[verifier::external_body]
fn parse_http_date(text: &str) -> (r: Option<u64>)
    ensures
        r == http_date_ms(text@),
{
    let date = httpdate::parse_http_date(text).ok()?;
    let since = date.duration_since(std::time::UNIX_EPOCH).unwrap_or_default();
    Some(since.as_millis() as u64)
}

/// The whole number of milliseconds that is closest to `n` and can be waited: none if `n` is
/// negative.
pub open spec fn waitable(n: i128) -> u64 {
    if n < 0 {
        0
    } else if n > u64::MAX {
        u64::MAX
    } else {
        n as u64
    }
}

/// The delay that a response asks for: `Retry-After-ms` first, then `Retry-After` in seconds,
/// then `Retry-After` as a date.
pub open spec fn requested_delay(
    millis: Option<i128>,
    seconds_as_millis: Option<i128>,
    date_ms: Option<u64>,
    now_ms: u64,
) -> Option<u64> {
    match (millis, seconds_as_millis, date_ms) {
        (Some(ms), _, _) => Some(waitable(ms)),
        (None, Some(ms), _) => Some(waitable(ms)),
        (None, None, Some(date)) => Some(waitable((date - now_ms) as i128)),
        (None, None, None) => None,
    }
}

/// The whole number of milliseconds that is closest to `n` and can be waited.
fn to_waitable(n: i128) -> (r: u64)
    ensures
        r == waitable(n),
{
    if n < 0 {
        0
    } else if n > u64::MAX as i128 {
        u64::MAX
    } else {
        n as u64
    }
}

/// The delay that a response asks for, given what its fields say and the time.
pub fn choose_retry_after(
    millis: Option<i128>,
    seconds_as_millis: Option<i128>,
    date_ms: Option<u64>,
    now_ms: u64,
) -> (r: Option<u64>)
    ensures
        r == requested_delay(millis, seconds_as_millis, date_ms, now_ms),
{
    match (millis, seconds_as_millis, date_ms) {
        (Some(ms), _, _) => Some(to_waitable(ms)),
        (None, Some(ms), _) => Some(to_waitable(ms)),
        (None, None, Some(date)) => Some(to_waitable(date as i128 - now_ms as i128)),
        (None, None, None) => None,
    }
}

/// The text of a field, without white space around it.
pub open spec fn trimmed_field(fields: Map<Seq<char>, Seq<Seq<u8>>>, name: Seq<char>) -> Option<
    Seq<char>,
> {
    match field_text(fields, name) {
        Some(text) => Some(trimmed(text)),
        None => None,
    }
}

/// The text of a field, without white space around it.
fn trimmed_text(headers: &http::HeaderMap, name: &str) -> (r: Option<String>)
    requires
        simple_name(name@),
    ensures
        opt_text(r) == trimmed_field(header_fields(*headers), name@),
{
    match header_text(headers, name) {
        Some(text) => Some(trim(text.as_str()).to_owned()),
        None => None,
    }
}

/// The texts of the fields `Retry-After-ms` and `Retry-After`, in which a number may stand.
pub fn retry_after_texts(headers: &http::HeaderMap) -> (r: (Option<String>, Option<String>))
    ensures
        opt_text(r.0) == trimmed_field(header_fields(*headers), "retry-after-ms"@),
        opt_text(r.1) == trimmed_field(header_fields(*headers), "retry-after"@),
{
    proof {
        reveal_strlit("retry-after-ms");
        reveal_strlit("retry-after");
    }
    (trimmed_text(headers, "retry-after-ms"), trimmed_text(headers, "retry-after"))
}

/// The date that the field `Retry-After` holds, in milliseconds since the Unix epoch.
pub open spec fn retry_date(fields: Map<Seq<char>, Seq<Seq<u8>>>) -> Option<u64> {
    match trimmed_field(fields, "retry-after"@) {
        Some(text) => http_date_ms(text),
        None => None,
    }
}

/// The delay in milliseconds that the fields of a response ask for.
///
/// Of the texts that [`retry_after_texts`] hands out, `millis` is the number that the first
/// one holds, if it holds one; `seconds_as_millis` is the number of seconds that the second
/// one holds, if it holds one, in milliseconds. Both are without their fraction, and may be
/// negative. A date is read here.
pub fn parse_retry_after_ms(
    headers: &http::HeaderMap,
    millis: Option<i128>,
    seconds_as_millis: Option<i128>,
) -> (r: Option<u64>)
    ensures
        exists|now_ms: u64|
            r == #[trigger] requested_delay(
                millis,
                seconds_as_millis,
                retry_date(header_fields(*headers)),
                now_ms,
            ),
{
    proof {
        reveal_strlit("retry-after");
    }
    let date_ms: Option<u64> = match trimmed_text(headers, "retry-after") {
        Some(text) => parse_http_date(text.as_str()),
        None => None,
    };
    choose_retry_after(millis, seconds_as_millis, date_ms, unix_millis())
}

/// The number that `read` finds in the text of a field, if there is one.
pub open spec fn number_in(
    fields: Map<Seq<char>, Seq<Seq<u8>>>,
    name: Seq<char>,
    read: spec_fn(Seq<char>) -> Option<i128>,
) -> Option<i128> {
    match trimmed_field(fields, name) {
        Some(text) => read(text),
        None => None,
    }
}

/// The delay that fields ask for at a time, where `millis_in` and `seconds_in_millis` tell which
/// numbers stand in the texts: what [`parse_retry_after_ms`] makes of these numbers then.
pub open spec fn delay_asked(
    fields: Map<Seq<char>, Seq<Seq<u8>>>,
    millis_in: spec_fn(Seq<char>) -> Option<i128>,
    seconds_in_millis: spec_fn(Seq<char>) -> Option<i128>,
    now_ms: u64,
) -> Option<u64> {
    requested_delay(
        number_in(fields, "retry-after-ms"@, millis_in),
        number_in(fields, "retry-after"@, seconds_in_millis),
        retry_date(fields),
        now_ms,
    )
}

/// If `Retry-After-ms` holds a number, `Retry-After` does not matter. If `Retry-After-ms` holds
/// none, the fields ask for what they would ask for without it. A number that is negative asks
/// for no delay. All of this holds however numbers are read.
pub proof fn law_retry_after_order(
    fields: Map<Seq<char>, Seq<Seq<u8>>>,
    millis_in: spec_fn(Seq<char>) -> Option<i128>,
    seconds_in_millis: spec_fn(Seq<char>) -> Option<i128>,
    now_ms: u64,
)
    ensures
        ({
            let millis = number_in(fields, "retry-after-ms"@, millis_in);
            let seconds = number_in(fields, "retry-after"@, seconds_in_millis);
            let asked = delay_asked(fields, millis_in, seconds_in_millis, now_ms);
            let without_seconds = fields.remove("retry-after"@);
            let without_millis = fields.remove("retry-after-ms"@);
            &&& millis is Some ==> asked == delay_asked(
                without_seconds,
                millis_in,
                seconds_in_millis,
                now_ms,
            )
            &&& millis is None ==> asked == delay_asked(
                without_millis,
                millis_in,
                seconds_in_millis,
                now_ms,
            )
            &&& millis matches Some(ms) ==> ms < 0 ==> asked == Some(0u64)
            &&& millis is None ==> (seconds matches Some(ms) ==> ms < 0 ==> asked == Some(0u64))
            &&& millis matches Some(ms) ==> 0 <= ms <= u64::MAX ==> asked == Some(ms as u64)
            &&& millis is None ==> (seconds matches Some(ms) ==> 0 <= ms <= u64::MAX ==> asked
                == Some(ms as u64))
            &&& millis is None && seconds is None ==> match trimmed_field(fields, "retry-after"@) {
                Some(text) => match http_date_ms(text) {
                    Some(date) => asked == Some(
                        if date > now_ms {
                            (date - now_ms) as u64
                        } else {
                            0
                        },
                    ),
                    None => asked is None,
                },
                None => asked is None,
            }
        }),
{
    reveal_strlit("retry-after-ms");
    reveal_strlit("retry-after");
    assert("retry-after-ms"@.len() == 14);
    assert("retry-after"@.len() == 11);
}

/// A date that has passed asks for no delay.
pub proof fn law_past_date(date_ms: u64, now_ms: u64)
    requires
        date_ms <= now_ms,
    ensures
        requested_delay(None, None, Some(date_ms), now_ms) == Some(0u64),
{
}

// ── Decisions ──────────────────────────────────────────────────────────────

/// Whether a status code is one of those that are tried again.
pub fn is_retryable_status(status: u16, retry_codes: &[u16]) -> (r: bool)
    ensures
        r == retry_codes@.contains(status),
{
    let mut i: usize = 0;
    while i < retry_codes.len()
        invariant
            i <= retry_codes@.len(),
            forall|j: int| 0 <= j < i ==> retry_codes@[j] != status,
        decreases retry_codes@.len() - i,
    {
        if retry_codes[i] == status {
            return true;
        }
        i += 1;
    }
    false
}

/// The delay before a retry: what the upstream asks for, but never more than the backoff.
pub open spec fn delay_of(retry_after_ms: Option<u64>, backoff_ms: u64) -> u64 {
    match retry_after_ms {
        Some(ra) if ra <= backoff_ms => ra,
        _ => backoff_ms,
    }
}

/// The delay before a retry: what the upstream asks for, but never more than the backoff.
pub fn compute_delay_ms(retry_after_ms: Option<u64>, backoff_ms: u64) -> (r: u64)
    ensures
        r == delay_of(retry_after_ms, backoff_ms),
        r <= backoff_ms,
{
    match retry_after_ms {
        Some(ra) => if ra <= backoff_ms {
            ra
        } else {
            backoff_ms
        },
        None => backoff_ms,
    }
}

/// What the upstream asks for counts if it is shorter than the backoff; it never makes a wait
/// longer, and without it the wait is the backoff.
pub proof fn law_upstream_shortens_the_wait(asked: u64, backoff_ms: u64)
    ensures
        delay_of(None, backoff_ms) == backoff_ms,
        asked <= backoff_ms ==> delay_of(Some(asked), backoff_ms) == asked,
        asked >= backoff_ms ==> delay_of(Some(asked), backoff_ms) == backoff_ms,
{
}

/// What stands in a field counts without the white space around it.
pub proof fn law_field_without_white_space(
    fields: Map<Seq<char>, Seq<Seq<u8>>>,
    name: Seq<char>,
    before: Seq<char>,
    text: Seq<char>,
    after: Seq<char>,
)
    requires
        text.len() > 0,
        '!' <= text[0] <= '~',
        '!' <= text.last() <= '~',
        forall|i: int| 0 <= i < before.len() ==> #[trigger] before[i] == ' ' || before[i] == '\t',
        forall|i: int| 0 <= i < after.len() ==> #[trigger] after[i] == ' ' || after[i] == '\t',
        field_text(fields, name) == Some(before + text + after),
    ensures
        trimmed_field(fields, name) == Some(text),
{
    law_usual_white_space();
    law_trimmed(before, text, after);
}

}
