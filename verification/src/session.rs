//! The session's joint state machine and the channel roles.
//!
//! Observed across both processes, a session moves `Created` to
//! `HandoffSent` to `Redeeming` to `ResultSent` to `Completed`, and any
//! step may fall to `Failed` instead. There is no path back from
//! `Failed`: a retry is a brand-new session with a fresh state and
//! verifier.
//!
//! A channel leg is either a Listener, which binds the well-known address
//! and waits, or a Connector, which reattempts the address until a
//! listener accepts. The surrounding process runs the waiting and the
//! sleeping; the decisions stand here.

use vstd::prelude::*;
use crate::auth::AuthError;

verus! {

/// Where a session stands, observed jointly across both processes.
#[derive(Debug, Clone, Copy, PartialEq, Eq, Structural)]
pub enum SessionState {
    /// Fresh parameters drawn, nothing sent.
    Created,
    /// The handoff reached the callback process.
    HandoffSent,
    /// The callback process is validating and redeeming.
    Redeeming,
    /// The token result reached the primary process.
    ResultSent,
    /// The primary process accepted the result.
    Completed,
    /// The session is lost; only a new session can retry.
    Failed(AuthError),
}

/// What moves a session forward.
#[derive(Debug, Clone, Copy, PartialEq, Eq, Structural)]
pub enum SessionEvent {
    /// The handoff message was transmitted and accepted.
    HandoffDelivered,
    /// The callback process began validating the redirect.
    RedeemStarted,
    /// The token result was transmitted and accepted.
    ResultDelivered,
    /// The primary process read and accepted the result.
    ResultAccepted,
    /// A leg failed for the given reason.
    Fault(AuthError),
}

/// The next state: the four progressions in order, a fault to `Failed`
/// from anywhere, an out-of-order event to `Failed` as a protocol error.
/// `Completed` and `Failed` are terminal.
pub open spec fn session_step_spec(s: SessionState, e: SessionEvent) -> SessionState {
    match s {
        SessionState::Completed => SessionState::Completed,
        SessionState::Failed(r) => SessionState::Failed(r),
        _ => {
            match e {
                SessionEvent::Fault(r) => SessionState::Failed(r),
                SessionEvent::HandoffDelivered => {
                    if s is Created {
                        SessionState::HandoffSent
                    } else {
                        SessionState::Failed(AuthError::UnexpectedMessage)
                    }
                },
                SessionEvent::RedeemStarted => {
                    if s is HandoffSent {
                        SessionState::Redeeming
                    } else {
                        SessionState::Failed(AuthError::UnexpectedMessage)
                    }
                },
                SessionEvent::ResultDelivered => {
                    if s is Redeeming {
                        SessionState::ResultSent
                    } else {
                        SessionState::Failed(AuthError::UnexpectedMessage)
                    }
                },
                SessionEvent::ResultAccepted => {
                    if s is ResultSent {
                        SessionState::Completed
                    } else {
                        SessionState::Failed(AuthError::UnexpectedMessage)
                    }
                },
            }
        },
    }
}

/// Advances a session by one event.
pub fn session_step(s: SessionState, e: SessionEvent) -> (r: SessionState)
    ensures
        r == session_step_spec(s, e),
{
    match s {
        SessionState::Completed => SessionState::Completed,
        SessionState::Failed(r) => SessionState::Failed(r),
        _ => {
            match e {
                SessionEvent::Fault(r) => SessionState::Failed(r),
                SessionEvent::HandoffDelivered => {
                    if matches!(s, SessionState::Created) {
                        SessionState::HandoffSent
                    } else {
                        SessionState::Failed(AuthError::UnexpectedMessage)
                    }
                },
                SessionEvent::RedeemStarted => {
                    if matches!(s, SessionState::HandoffSent) {
                        SessionState::Redeeming
                    } else {
                        SessionState::Failed(AuthError::UnexpectedMessage)
                    }
                },
                SessionEvent::ResultDelivered => {
                    if matches!(s, SessionState::Redeeming) {
                        SessionState::ResultSent
                    } else {
                        SessionState::Failed(AuthError::UnexpectedMessage)
                    }
                },
                SessionEvent::ResultAccepted => {
                    if matches!(s, SessionState::ResultSent) {
                        SessionState::Completed
                    } else {
                        SessionState::Failed(AuthError::UnexpectedMessage)
                    }
                },
            }
        },
    }
}

/// There is no path back from `Failed`: whatever happens next, a failed
/// session stays failed, with its first reason.
pub proof fn lemma_failed_absorbing(r: AuthError, e: SessionEvent)
    ensures
        session_step_spec(SessionState::Failed(r), e) == SessionState::Failed(r),
{
}

/// The handoff strictly precedes the result: `ResultSent` is entered
/// only from `Redeeming`, `Redeeming` only from `HandoffSent`, and
/// `HandoffSent` only from `Created`, so no session observes the second
/// message before the first.
pub proof fn lemma_message_order(s: SessionState, e: SessionEvent)
    ensures
        session_step_spec(s, e) is ResultSent ==> (s is Redeeming && e is ResultDelivered),
        session_step_spec(s, e) is Redeeming ==> (s is HandoffSent && e is RedeemStarted),
        session_step_spec(s, e) is HandoffSent ==> (s is Created && e is HandoffDelivered),
        session_step_spec(s, e) is Completed ==> (s is Completed || (s is ResultSent
            && e is ResultAccepted)),
{
}

/// What one connection attempt at the channel address came to.
#[derive(Debug, Clone, Copy, PartialEq, Eq, Structural)]
pub enum ConnectOutcome {
    /// A listener accepted.
    Connected,
    /// Nobody was listening yet, or the attempt failed.
    Refused,
}

/// What the connector does next. There is no failing alternative: before
/// a listener appears, refusal is the expected case, never an error.
#[derive(Debug, Clone, Copy, PartialEq, Eq, Structural)]
pub enum ConnectorDecision {
    /// Hand the message over and close.
    Deliver,
    /// Sleep the fixed interval and attempt the address again.
    RetryLater,
}

/// The connector's decision after one attempt: deliver on a connection,
/// otherwise retry - a single refusal, or any number of them, never ends
/// the attempt.
pub fn connector_step(outcome: &ConnectOutcome) -> (r: ConnectorDecision)
    ensures
        r is Deliver <==> outcome is Connected,
        r is RetryLater <==> outcome is Refused,
{
    match outcome {
        ConnectOutcome::Connected => ConnectorDecision::Deliver,
        ConnectOutcome::Refused => ConnectorDecision::RetryLater,
    }
}

/// The channel's well-known identifier: one address system-wide, shared
/// by both legs, so only one session may be in flight at a time.
pub fn rendezvous_address() -> (r: String)
    ensures
        r@ == "wilma-dumper"@,
{
    "wilma-dumper".to_owned()
}

/// How long a connector sleeps between attempts, in milliseconds.
pub fn connector_retry_interval_ms() -> (r: u64)
    ensures
        r == 50,
{
    50
}

} // verus!
