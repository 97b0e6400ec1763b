use wilma_dumper::auth::AuthError;
use wilma_dumper::session::{
    connector_retry_interval_ms, connector_step, rendezvous_address, session_step, ConnectOutcome,
    ConnectorDecision, SessionEvent, SessionState,
};

#[test]
fn happy_path_in_order() {
    let s0 = SessionState::Created;
    let s1 = session_step(s0, SessionEvent::HandoffDelivered);
    assert_eq!(s1, SessionState::HandoffSent);
    let s2 = session_step(s1, SessionEvent::RedeemStarted);
    assert_eq!(s2, SessionState::Redeeming);
    let s3 = session_step(s2, SessionEvent::ResultDelivered);
    assert_eq!(s3, SessionState::ResultSent);
    let s4 = session_step(s3, SessionEvent::ResultAccepted);
    assert_eq!(s4, SessionState::Completed);
}

#[test]
fn any_step_can_fail() {
    for s in [
        SessionState::Created,
        SessionState::HandoffSent,
        SessionState::Redeeming,
        SessionState::ResultSent,
    ] {
        assert_eq!(
            session_step(s, SessionEvent::Fault(AuthError::StateMismatch)),
            SessionState::Failed(AuthError::StateMismatch)
        );
    }
}

#[test]
fn no_path_back_from_failed() {
    let failed = SessionState::Failed(AuthError::StateMissing);
    for e in [
        SessionEvent::HandoffDelivered,
        SessionEvent::RedeemStarted,
        SessionEvent::ResultDelivered,
        SessionEvent::ResultAccepted,
        SessionEvent::Fault(AuthError::MissingCode),
    ] {
        assert_eq!(session_step(failed, e), failed);
    }
}

#[test]
fn out_of_order_events_fail_the_session() {
    // The result cannot be observed before the handoff.
    assert_eq!(
        session_step(SessionState::Created, SessionEvent::ResultDelivered),
        SessionState::Failed(AuthError::UnexpectedMessage)
    );
    assert_eq!(
        session_step(SessionState::HandoffSent, SessionEvent::ResultAccepted),
        SessionState::Failed(AuthError::UnexpectedMessage)
    );
}

#[test]
fn completed_is_terminal() {
    assert_eq!(
        session_step(SessionState::Completed, SessionEvent::Fault(AuthError::MissingCode)),
        SessionState::Completed
    );
}

#[test]
fn connector_keeps_retrying_until_a_listener_appears() {
    // However many refusals come first, none of them ends the attempt.
    for _ in 0..10 {
        assert_eq!(connector_step(&ConnectOutcome::Refused), ConnectorDecision::RetryLater);
    }
    assert_eq!(connector_step(&ConnectOutcome::Connected), ConnectorDecision::Deliver);
}

#[test]
fn channel_constants() {
    assert_eq!(rendezvous_address(), "wilma-dumper");
    assert_eq!(connector_retry_interval_ms(), 50);
}
