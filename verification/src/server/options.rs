//! Validated resource limits and deadlines for server sessions.
use core::time::Duration;
use vstd::prelude::*;

use super::error::ServerError;

verus! {

/// A point in time of the asynchronous runtime's monotonic clock.
#[verifier::external_type_specification]
#[verifier::external_body]
pub struct ExInstant(tokio::time::Instant);

/// Cloning a duration copies it (`Duration` is `Copy`).
pub assume_specification[ <Duration as Clone>::clone ](duration: &Duration) -> (copy: Duration)
    ensures
        copy == *duration,
;

/// The default decoded byte budget of one inquiry: one MiB.
pub const DEFAULT_MAX_INQUIRY_BYTES: usize = 1_048_576;
/// The default number of concurrent sessions.
pub const DEFAULT_MAX_SESSIONS: usize = 64;

/// The largest number of permits the session semaphore supports
/// (`tokio::sync::Semaphore::MAX_PERMITS`, defined there as `usize::MAX >> 3`).
#[verifier::external_body]
fn max_permits() -> (n: usize)
    ensures
        n == usize::MAX >> 3usize,
{
    tokio::sync::Semaphore::MAX_PERMITS
}

/// A whole number of seconds (`Duration::from_secs`).
#[verifier::external_body]
fn seconds(secs: u64) -> Duration {
    Duration::from_secs(secs)
}

/// What `Duration::is_zero` answers for a duration: whether it spans no time.
pub uninterp spec fn spans_no_time(duration: Duration) -> bool;

/// What `tokio::time::Instant::checked_add` answers for a start and a
/// duration: the later instant, or `None` when the clock cannot represent it.
pub uninterp spec fn instant_plus(start: tokio::time::Instant, duration: Duration) -> Option<
    tokio::time::Instant,
>;

/// Whether a duration spans no time (`Duration::is_zero`).
#[verifier::external_body]
fn duration_is_zero(duration: &Duration) -> (zero: bool)
    ensures
        zero == spans_no_time(*duration),
{
    duration.is_zero()
}

/// The current time of the runtime's clock (`tokio::time::Instant::now`).
#[verifier::external_body]
fn instant_now() -> tokio::time::Instant {
    tokio::time::Instant::now()
}

/// The instant `duration` after `start`, if the clock can represent it
/// (`tokio::time::Instant::checked_add`).
#[verifier::external_body]
fn instant_after(start: tokio::time::Instant, duration: Duration) -> (end: Option<
    tokio::time::Instant,
>)
    ensures
        end == instant_plus(start, duration),
{
    start.checked_add(duration)
}

/// Whether the end of `duration` is unrepresentable from some start of the
/// clock, which is the one way a nonzero duration can fail to yield a deadline.
pub open spec fn end_unrepresentable(duration: Duration) -> bool {
    exists|start: tokio::time::Instant| #[trigger] instant_plus(start, duration) is None
}

/// Whether a timeout may be refused: it spans no time, or its end may be
/// unrepresentable.
pub open spec fn timeout_refusable(duration: Duration) -> bool {
    spans_no_time(duration) || end_unrepresentable(duration)
}

/// The deadline rule: a zero duration, or one whose end the clock cannot
/// represent, is invalid; otherwise the end is the deadline.
pub fn deadline_outcome(zero: bool, end: Option<tokio::time::Instant>) -> (r: Result<
    tokio::time::Instant,
    ServerError,
>)
    ensures
        zero ==> r matches Err(ServerError::InvalidOptions),
        !zero && end is None ==> r matches Err(ServerError::InvalidOptions),
        !zero ==> (end matches Some(instant) ==> r matches Ok(d) && d == instant),
{
    if zero {
        return Err(ServerError::InvalidOptions);
    }
    match end {
        Some(instant) => Ok(instant),
        None => Err(ServerError::InvalidOptions),
    }
}

/// The absolute deadline `duration` from now.
///
/// Fails with `InvalidOptions` for a zero duration or an unrepresentable
/// end; otherwise the deadline is `duration` after the current time, which
/// the clock supplies.
pub fn deadline(duration: Duration) -> (r: Result<tokio::time::Instant, ServerError>)
    ensures
        r is Err ==> r matches Err(ServerError::InvalidOptions),
        spans_no_time(duration) ==> r matches Err(ServerError::InvalidOptions),
        r matches Ok(end) ==> !spans_no_time(duration) && exists|start: tokio::time::Instant|
            #[trigger] instant_plus(start, duration) == Some(end),
        r is Err ==> timeout_refusable(duration),
{
    let zero = duration_is_zero(&duration);
    if zero {
        return deadline_outcome(true, None);
    }
    let start = instant_now();
    let end = instant_after(start, duration);
    proof {
        assert(instant_plus(start, duration) == end);
    }
    deadline_outcome(false, end)
}

/// What `Ord::min` answers for two instants of the clock: the earlier one.
pub uninterp spec fn earlier_of(a: tokio::time::Instant, b: tokio::time::Instant) -> tokio::time::Instant;

/// The earlier of two instants (`Ord::min` on `tokio::time::Instant`), which
/// is one of them.
#[verifier::external_body]
fn earlier(a: tokio::time::Instant, b: tokio::time::Instant) -> (r: tokio::time::Instant)
    ensures
        r == earlier_of(a, b),
        r == a || r == b,
{
    a.min(b)
}

/// The deadline of a nested operation: its own deadline capped by the
/// enclosing one, or the enclosing one alone when it has none.
pub fn capped_deadline(
    own: Result<tokio::time::Instant, ServerError>,
    enclosing: tokio::time::Instant,
) -> (r: tokio::time::Instant)
    ensures
        own matches Ok(end) ==> r == earlier_of(end, enclosing),
        own is Err ==> r == enclosing,
{
    match own {
        Ok(end) => earlier(end, enclosing),
        Err(_) => enclosing,
    }
}

/// The deadline of an inquiry: `budget` from now, capped by the enclosing
/// deadline, or the enclosing deadline when the budget yields no deadline.
pub fn inquiry_deadline(budget: Duration, enclosing: tokio::time::Instant) -> (r:
    tokio::time::Instant)
    ensures
        spans_no_time(budget) ==> r == enclosing,
        r == enclosing || exists|start: tokio::time::Instant, end: tokio::time::Instant|
            #![trigger instant_plus(start, budget), earlier_of(end, enclosing)]
            instant_plus(start, budget) == Some(end) && r == earlier_of(end, enclosing),
{
    let own = deadline(budget);
    let ghost own_result = own;
    let r = capped_deadline(own, enclosing);
    proof {
        if let Ok(end) = own_result {
            let start = choose|start: tokio::time::Instant| #[trigger] instant_plus(start, budget) == Some(end);
            assert(instant_plus(start, budget) == Some(end) && r == earlier_of(end, enclosing));
        }
    }
    r
}

/// Positive limits for session operations, validated before authentication.
#[derive(Debug, Clone)]
pub struct ServerOptions {
    /// Total authentication and greeting budget; defaults to 120 seconds.
    pub greeting_timeout: Duration,
    /// Total command budget including handler work and final output;
    /// defaults to 300 seconds.
    pub command_timeout: Duration,
    /// Inquiry budget, capped by the enclosing deadline; defaults to 120
    /// seconds.
    pub inquiry_timeout: Duration,
    /// Maximum decoded data bytes per inquiry; defaults to one MiB.
    pub max_inquiry_bytes: usize,
    /// Time between commands, including comments and partial lines; defaults
    /// to 300 seconds.
    pub idle_timeout: Duration,
    /// Maximum close-hook duration; defaults to 30 seconds.
    pub shutdown_timeout: Duration,
    /// Maximum number of concurrently served sessions.
    pub max_sessions: usize,
}

/// A session count that the server can serve concurrently.
pub open spec fn sessions_supported(n: usize) -> bool {
    1 <= n <= usize::MAX >> 3usize
}

impl Default for ServerOptions {
    fn default() -> (o: Self)
        ensures
            o.max_inquiry_bytes == DEFAULT_MAX_INQUIRY_BYTES,
            o.max_sessions == DEFAULT_MAX_SESSIONS,
    {
        Self {
            greeting_timeout: seconds(120),
            command_timeout: seconds(300),
            inquiry_timeout: seconds(120),
            max_inquiry_bytes: DEFAULT_MAX_INQUIRY_BYTES,
            idle_timeout: seconds(300),
            shutdown_timeout: seconds(30),
            max_sessions: DEFAULT_MAX_SESSIONS,
        }
    }
}

impl ServerOptions {
    /// Checks every limit: a nonzero inquiry budget, a supported session
    /// count, and a deadline for every timeout.
    pub fn validate(&self) -> (r: Result<(), ServerError>)
        ensures
            r is Ok ==> self.max_inquiry_bytes != 0 && sessions_supported(self.max_sessions),
            self.max_inquiry_bytes == 0 || !sessions_supported(self.max_sessions) ==> r is Err,
            spans_no_time(self.greeting_timeout) || spans_no_time(self.command_timeout)
                || spans_no_time(self.inquiry_timeout) || spans_no_time(self.idle_timeout)
                || spans_no_time(self.shutdown_timeout) ==> r is Err,
            r is Err ==> r matches Err(ServerError::InvalidOptions),
            r is Err ==> self.max_inquiry_bytes == 0 || !sessions_supported(self.max_sessions)
                || timeout_refusable(self.greeting_timeout) || timeout_refusable(
                self.command_timeout,
            ) || timeout_refusable(self.inquiry_timeout) || timeout_refusable(self.idle_timeout)
                || timeout_refusable(self.shutdown_timeout),
    {
        if self.max_inquiry_bytes == 0 {
            return Err(ServerError::InvalidOptions);
        }
        if self.max_sessions == 0 || self.max_sessions > max_permits() {
            return Err(ServerError::InvalidOptions);
        }
        match deadline(self.greeting_timeout) {
            Err(e) => return Err(e),
            Ok(_) => {},
        }
        match deadline(self.command_timeout) {
            Err(e) => return Err(e),
            Ok(_) => {},
        }
        match deadline(self.inquiry_timeout) {
            Err(e) => return Err(e),
            Ok(_) => {},
        }
        match deadline(self.idle_timeout) {
            Err(e) => return Err(e),
            Ok(_) => {},
        }
        match deadline(self.shutdown_timeout) {
            Err(e) => return Err(e),
            Ok(_) => {},
        }
        Ok(())
    }

    /// Sets the number of concurrent sessions, which must be positive and
    /// supported by the session semaphore.
    pub fn with_max_sessions(self, max_sessions: usize) -> (r: Result<Self, ServerError>)
        ensures
            r is Ok <==> sessions_supported(max_sessions),
            r matches Ok(o) ==> o == (ServerOptions { max_sessions, ..self }),
            r is Err ==> r matches Err(ServerError::InvalidOptions),
    {
        if max_sessions == 0 || max_sessions > max_permits() {
            return Err(ServerError::InvalidOptions);
        }
        Ok(Self { max_sessions, ..self })
    }

    /// Sets the decoded byte budget of one inquiry, which must be positive.
    pub fn with_max_inquiry_bytes(self, max_inquiry_bytes: usize) -> (r: Result<Self, ServerError>)
        ensures
            r is Ok <==> max_inquiry_bytes != 0,
            r matches Ok(o) ==> o == (ServerOptions { max_inquiry_bytes, ..self }),
            r is Err ==> r matches Err(ServerError::InvalidOptions),
    {
        if max_inquiry_bytes == 0 {
            return Err(ServerError::InvalidOptions);
        }
        Ok(Self { max_inquiry_bytes, ..self })
    }

    /// Sets the greeting budget, which must yield a deadline.
    pub fn with_greeting_timeout(self, timeout: Duration) -> (r: Result<Self, ServerError>)
        ensures
            r matches Ok(o) ==> o == (ServerOptions { greeting_timeout: timeout, ..self }),
            spans_no_time(timeout) ==> r is Err,
            r is Err ==> (r matches Err(ServerError::InvalidOptions)) && timeout_refusable(timeout),
    {
        match deadline(timeout) {
            Err(e) => Err(e),
            Ok(_) => Ok(Self { greeting_timeout: timeout, ..self }),
        }
    }

    /// Sets the command budget, which must yield a deadline.
    pub fn with_command_timeout(self, timeout: Duration) -> (r: Result<Self, ServerError>)
        ensures
            r matches Ok(o) ==> o == (ServerOptions { command_timeout: timeout, ..self }),
            spans_no_time(timeout) ==> r is Err,
            r is Err ==> (r matches Err(ServerError::InvalidOptions)) && timeout_refusable(timeout),
    {
        match deadline(timeout) {
            Err(e) => Err(e),
            Ok(_) => Ok(Self { command_timeout: timeout, ..self }),
        }
    }

    /// Sets the inquiry budget, which must yield a deadline.
    pub fn with_inquiry_timeout(self, timeout: Duration) -> (r: Result<Self, ServerError>)
        ensures
            r matches Ok(o) ==> o == (ServerOptions { inquiry_timeout: timeout, ..self }),
            spans_no_time(timeout) ==> r is Err,
            r is Err ==> (r matches Err(ServerError::InvalidOptions)) && timeout_refusable(timeout),
    {
        match deadline(timeout) {
            Err(e) => Err(e),
            Ok(_) => Ok(Self { inquiry_timeout: timeout, ..self }),
        }
    }

    /// Sets the idle budget between commands, which must yield a deadline.
    pub fn with_idle_timeout(self, timeout: Duration) -> (r: Result<Self, ServerError>)
        ensures
            r matches Ok(o) ==> o == (ServerOptions { idle_timeout: timeout, ..self }),
            spans_no_time(timeout) ==> r is Err,
            r is Err ==> (r matches Err(ServerError::InvalidOptions)) && timeout_refusable(timeout),
    {
        match deadline(timeout) {
            Err(e) => Err(e),
            Ok(_) => Ok(Self { idle_timeout: timeout, ..self }),
        }
    }

    /// Sets the close-hook budget, which must yield a deadline.
    pub fn with_shutdown_timeout(self, timeout: Duration) -> (r: Result<Self, ServerError>)
        ensures
            r matches Ok(o) ==> o == (ServerOptions { shutdown_timeout: timeout, ..self }),
            spans_no_time(timeout) ==> r is Err,
            r is Err ==> (r matches Err(ServerError::InvalidOptions)) && timeout_refusable(timeout),
    {
        match deadline(timeout) {
            Err(e) => Err(e),
            Ok(_) => Ok(Self { shutdown_timeout: timeout, ..self }),
        }
    }
}

} // verus!
