//! Retry and backoff decisions for a single request.
//!
//! The network call itself happens outside the library; the caller feeds
//! every outcome (a response, or a connection failure) into
//! [`transport_step`] and performs the action it decides: stop with the
//! response, wait and retry, or give up with a classified error.
use vstd::prelude::*;
use crate::errors::ApiError;
use crate::headers::spec_header;
use crate::headers::header_value;
use crate::httpmsg::{friendly_error, spec_friendly_error};
use crate::jsonv::JsonValue;
use crate::strutil::{chars_trim, parse_u64, parse_u64_of, str_chars, trimmed};

verus! {

/// The whole attempt budget: one first try and at most two retries.
pub const MAX_ATTEMPTS: u32 = 3;

/// The largest random jitter added to any backoff wait.
pub const MAX_JITTER_MS: u64 = 250;

pub open spec fn is_success_status(status: u16) -> bool {
    200 <= status < 300
}

/// Only rate limiting and server errors are worth retrying.
pub open spec fn is_retryable_status(status: u16) -> bool {
    status == 429 || (500 <= status < 600)
}

pub fn success_status(status: u16) -> (r: bool)
    ensures
        r == is_success_status(status),
{
    200 <= status && status < 300
}

pub fn retryable_status(status: u16) -> (r: bool)
    ensures
        r == is_retryable_status(status),
{
    status == 429 || (500 <= status && status < 600)
}

/// Relies on the system clock alone: the jitter is the clock's sub-second
/// nanoseconds reduced modulo the bound. Nothing more is promised of it
/// than its range.
#[verifier::external_body]
fn jitter(max_ms: u64) -> (r: u64)
    ensures
        max_ms == 0 ==> r == 0,
        max_ms > 0 ==> r < max_ms,
{
    if max_ms == 0 {
        return 0;
    }
    let nanos = std::time::SystemTime::now().duration_since(std::time::UNIX_EPOCH).map(
        |d| d.subsec_nanos(),
    ).unwrap_or(0) as u64;
    nanos % max_ms
}

/// The `Retry-After` header as whole seconds, where one is present and its
/// trimmed value parses as an unsigned integer.
pub open spec fn spec_retry_after_secs(headers: Seq<(String, String)>) -> Option<u64> {
    match spec_header(headers, "retry-after"@) {
        Some(v) => parse_u64_of(trimmed(v)),
        None => None,
    }
}

/// The wait before retry number `attempt`, before jitter: the server's
/// `Retry-After` in milliseconds when given, else 2^(attempt-1) seconds.
pub open spec fn spec_backoff_base_ms(headers: Seq<(String, String)>, attempt: u32) -> nat
    recommends
        1 <= attempt <= MAX_ATTEMPTS,
{
    match spec_retry_after_secs(headers) {
        Some(secs) => if secs * 1000 <= u64::MAX {
            (secs * 1000) as nat
        } else {
            u64::MAX as nat
        },
        None => if attempt <= 1 {
            1000
        } else if attempt == 2 {
            2000
        } else {
            4000
        },
    }
}

/// The wait in milliseconds before retry number `attempt`: the backoff base
/// plus a random jitter below [`MAX_JITTER_MS`].
pub fn retry_wait_from_headers(headers: &Vec<(String, String)>, attempt: u32) -> (r: u64)
    requires
        1 <= attempt <= MAX_ATTEMPTS,
    ensures
        spec_backoff_base_ms(headers@, attempt) <= r,
        spec_backoff_base_ms(headers@, attempt) + MAX_JITTER_MS <= u64::MAX ==> r
            < spec_backoff_base_ms(headers@, attempt) + MAX_JITTER_MS,
{
    let base: u64 = match header_value(headers, "retry-after") {
        Some(v) => {
            let cs = str_chars(v.as_str());
            let t = chars_trim(&cs);
            match parse_u64(&t) {
                Some(secs) => match secs.checked_mul(1000) {
                    Some(ms) => ms,
                    None => u64::MAX,
                },
                None => exponential_base(attempt),
            }
        },
        None => exponential_base(attempt),
    };
    let j = jitter(MAX_JITTER_MS);
    base.saturating_add(j)
}

fn exponential_base(attempt: u32) -> (r: u64)
    requires
        1 <= attempt <= MAX_ATTEMPTS,
    ensures
        r == (if attempt <= 1 {
            1000nat
        } else if attempt == 2 {
            2000nat
        } else {
            4000nat
        }),
{
    if attempt <= 1 {
        1000
    } else if attempt == 2 {
        2000
    } else {
        4000
    }
}

/// One observed outcome of sending the request once.
pub enum TransportEvent {
    /// The service answered, with a status, its headers (lower-case names),
    /// the raw body text, and the body parsed as JSON where that succeeded.
    Response {
        status: u16,
        headers: Vec<(String, String)>,
        body_text: String,
        body_json: Option<JsonValue>,
    },
    /// No response at all: a connection-level failure.
    ConnectionError { detail: String },
}

/// What the caller must do after an attempt.
#[derive(Debug)]
pub enum TransportStep {
    /// The response is a success: hand it to the caller.
    Done,
    /// Wait this many milliseconds, then send the request again.
    Retry { wait_ms: u64 },
    /// Give up with this error.
    Fail { error: ApiError },
}

/// The spec-level view of one event: `None` stands for a connection error.
pub open spec fn spec_event_status(ev: TransportEvent) -> Option<u16> {
    match ev {
        TransportEvent::Response { status, .. } => Some(status),
        TransportEvent::ConnectionError { .. } => None,
    }
}

pub open spec fn spec_event_retryable(status: Option<u16>) -> bool {
    match status {
        Some(s) => is_retryable_status(s),
        None => true,
    }
}

pub open spec fn spec_event_success(status: Option<u16>) -> bool {
    match status {
        Some(s) => is_success_status(s),
        None => false,
    }
}

/// A wait drawn from the backoff formula: at least the base, and less than
/// the base plus the jitter bound wherever that sum fits.
pub open spec fn spec_wait_in_range(
    headers: Seq<(String, String)>,
    attempt: u32,
    wait_ms: u64,
) -> bool {
    &&& spec_backoff_base_ms(headers, attempt) <= wait_ms
    &&& spec_backoff_base_ms(headers, attempt) + MAX_JITTER_MS <= u64::MAX ==> wait_ms
        < spec_backoff_base_ms(headers, attempt) + MAX_JITTER_MS
}

/// Everything [`transport_step`] promises of its decision.
pub open spec fn spec_transport_step_ok(
    attempt: u32,
    event: TransportEvent,
    r: TransportStep,
) -> bool {
    match event {
        TransportEvent::Response { status, headers, body_text, body_json } => {
            if is_success_status(status) {
                r is Done
            } else if is_retryable_status(status) {
                if attempt < MAX_ATTEMPTS {
                    match r {
                        TransportStep::Retry { wait_ms } => spec_wait_in_range(
                            headers@,
                            attempt,
                            wait_ms,
                        ),
                        _ => false,
                    }
                } else {
                    match r {
                        TransportStep::Fail { error } => match error {
                            ApiError::Transient { status: st, message } => st == Some(status)
                                && message@ == spec_friendly_error(status, body_text@, body_json),
                            _ => false,
                        },
                        _ => false,
                    }
                }
            } else if status == 409 {
                r == (TransportStep::Fail { error: ApiError::Conflict })
            } else {
                match r {
                    TransportStep::Fail { error } => match error {
                        ApiError::Client { status: st, message } => st == status && message@
                            == spec_friendly_error(status, body_text@, body_json),
                        _ => false,
                    },
                    _ => false,
                }
            }
        },
        TransportEvent::ConnectionError { detail } => {
            if attempt < MAX_ATTEMPTS {
                match r {
                    TransportStep::Retry { wait_ms } => spec_wait_in_range(
                        Seq::<(String, String)>::empty(),
                        attempt,
                        wait_ms,
                    ),
                    _ => false,
                }
            } else {
                match r {
                    TransportStep::Fail { error } => match error {
                        ApiError::Transient { status, message } => status is None && message@
                            == detail@,
                        _ => false,
                    },
                    _ => false,
                }
            }
        },
    }
}

/// The decision for attempt number `attempt` (1-based) that observed `event`.
pub fn transport_step(attempt: u32, event: &TransportEvent) -> (r: TransportStep)
    requires
        1 <= attempt <= MAX_ATTEMPTS,
    ensures
        spec_event_success(spec_event_status(*event)) <==> r is Done,
        (spec_event_retryable(spec_event_status(*event)) && !spec_event_success(
            spec_event_status(*event),
        ) && attempt < MAX_ATTEMPTS) <==> r is Retry,
        spec_transport_step_ok(attempt, *event, r),
{
    match event {
        TransportEvent::Response { status, headers, body_text, body_json } => {
            let st = *status;
            if success_status(st) {
                TransportStep::Done
            } else if retryable_status(st) {
                if attempt < MAX_ATTEMPTS {
                    let wait_ms = retry_wait_from_headers(headers, attempt);
                    TransportStep::Retry { wait_ms }
                } else {
                    let message = friendly_error(st, body_text.as_str(), body_json.as_ref());
                    TransportStep::Fail {
                        error: ApiError::Transient { status: Some(st), message },
                    }
                }
            } else if st == 409 {
                TransportStep::Fail { error: ApiError::Conflict }
            } else {
                let message = friendly_error(st, body_text.as_str(), body_json.as_ref());
                TransportStep::Fail { error: ApiError::Client { status: st, message } }
            }
        },
        TransportEvent::ConnectionError { detail } => {
            if attempt < MAX_ATTEMPTS {
                let empty: Vec<(String, String)> = Vec::new();
                let wait_ms = retry_wait_from_headers(&empty, attempt);
                proof {
                    assert(empty@ =~= Seq::<(String, String)>::empty());
                }
                TransportStep::Retry { wait_ms }
            } else {
                TransportStep::Fail {
                    error: ApiError::Transient { status: None, message: detail.clone() },
                }
            }
        },
    }
}

/// The run of the whole retry loop over the outcomes the attempts would
/// observe, starting at attempt number `attempt`: how many attempts are
/// made in all, and whether the last one succeeded.
pub open spec fn spec_transport_run(outcomes: Seq<Option<u16>>, attempt: int) -> (int, bool)
    recommends
        1 <= attempt,
        outcomes.len() >= MAX_ATTEMPTS,
    decreases MAX_ATTEMPTS - attempt,
{
    if attempt < 1 || attempt > outcomes.len() || attempt > MAX_ATTEMPTS {
        (0, false)
    } else {
        let ob = outcomes[attempt - 1];
        if spec_event_success(ob) {
            (attempt, true)
        } else if spec_event_retryable(ob) && attempt < MAX_ATTEMPTS {
            spec_transport_run(outcomes, attempt + 1)
        } else {
            (attempt, false)
        }
    }
}

/// For any run where the first `n` outcomes fail retryably (n below the
/// attempt budget) and outcome `n+1` is a success, the transport returns
/// that success after exactly `n` retries: `n+1` attempts in all.
pub proof fn lemma_success_after_retryable_failures(outcomes: Seq<Option<u16>>, n: int)
    requires
        0 <= n < MAX_ATTEMPTS,
        outcomes.len() >= MAX_ATTEMPTS,
        forall|i: int|
            0 <= i < n ==> spec_event_retryable(#[trigger] outcomes[i]) && !spec_event_success(
                outcomes[i],
            ),
        spec_event_success(outcomes[n]),
    ensures
        spec_transport_run(outcomes, 1) == (n + 1, true),
{
    lemma_run_reaches(outcomes, 1, n + 1);
}

/// For any run whose first three outcomes all fail retryably, the transport
/// gives up with the third attempt's failure: exactly two retries.
pub proof fn lemma_failure_after_budget_exhausted(outcomes: Seq<Option<u16>>)
    requires
        outcomes.len() >= MAX_ATTEMPTS,
        forall|i: int|
            0 <= i < MAX_ATTEMPTS ==> spec_event_retryable(#[trigger] outcomes[i])
                && !spec_event_success(outcomes[i]),
    ensures
        spec_transport_run(outcomes, 1) == (MAX_ATTEMPTS as int, false),
{
    lemma_run_reaches(outcomes, 1, MAX_ATTEMPTS as int);
}

/// A response with a status that is neither a success nor retryable — any
/// 4xx other than 429, in particular — ends the run on the first attempt:
/// zero retries.
pub proof fn lemma_client_error_never_retried(outcomes: Seq<Option<u16>>, status: u16)
    requires
        outcomes.len() >= MAX_ATTEMPTS,
        outcomes[0] == Some(status),
        400 <= status < 500,
        status != 429,
    ensures
        spec_transport_run(outcomes, 1) == (1int, false),
{
}

proof fn lemma_run_reaches(outcomes: Seq<Option<u16>>, attempt: int, target: int)
    requires
        1 <= attempt <= target <= MAX_ATTEMPTS,
        outcomes.len() >= MAX_ATTEMPTS,
        forall|i: int|
            attempt - 1 <= i < target - 1 ==> spec_event_retryable(#[trigger] outcomes[i])
                && !spec_event_success(outcomes[i]),
    ensures
        spec_transport_run(outcomes, attempt) == spec_transport_run(outcomes, target),
    decreases target - attempt,
{
    if attempt < target {
        assert(spec_event_retryable(outcomes[attempt - 1]));
        lemma_run_reaches(outcomes, attempt + 1, target);
    }
}

} // verus!
