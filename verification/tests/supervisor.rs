use spam_detection::errors::{ErrorClass, ErrorKind};
use spam_detection::state::{CompletionHandler, CompletionStatus, DEFAULT_DEADLINE_MS};

#[test]
fn new_handler_is_pending_with_default_deadline() {
    let handler = CompletionHandler::new(3);
    assert!(handler.is_pending());
    assert_eq!(handler.tries(), 3);
    assert_eq!(handler.deadline_ms(), 30_000);
    assert_eq!(DEFAULT_DEADLINE_MS, 30_000);
    let custom = CompletionHandler::with_deadline(1, 250);
    assert_eq!(custom.deadline_ms(), 250);
    assert_eq!(custom.tries(), 1);
}

#[test]
fn success_is_reported_once() {
    let mut handler = CompletionHandler::new(0);
    assert!(matches!(handler.success(), Some(CompletionStatus::Success)));
    assert!(!handler.is_pending());
    assert!(handler.success().is_none());
    assert!(handler.retry(ErrorKind::recoverable("late")).is_none());
    assert!(handler.abort(ErrorKind::unrecoverable("late")).is_none());
    assert!(handler.on_timeout().is_none());
}

#[test]
fn retry_carries_cause_and_incremented_tries() {
    let mut handler = CompletionHandler::new(4);
    match handler.retry(ErrorKind::recoverable("disk hiccup")) {
        Some(CompletionStatus::Retry(cause, tries)) => {
            assert_eq!(tries, 5);
            assert_eq!(cause.class(), ErrorClass::Recoverable);
            assert_eq!(cause.reason(), "disk hiccup");
        }
        other => panic!("unexpected status {:?}", other),
    }
    assert!(handler.retry(ErrorKind::recoverable("again")).is_none());
}

#[test]
fn abort_is_terminal() {
    let mut handler = CompletionHandler::new(1);
    match handler.abort(ErrorKind::unrecoverable("malformed")) {
        Some(CompletionStatus::Abort(cause)) => {
            assert_eq!(cause.class(), ErrorClass::Unrecoverable);
            assert_eq!(cause.reason(), "malformed");
        }
        other => panic!("unexpected status {:?}", other),
    }
    assert!(handler.success().is_none());
}

#[test]
fn timeout_synthesizes_one_retry() {
    let mut handler = CompletionHandler::new(2);
    match handler.on_timeout() {
        Some(CompletionStatus::Retry(cause, tries)) => {
            assert_eq!(tries, 3);
            assert_eq!(cause.class(), ErrorClass::Recoverable);
            assert_eq!(cause.reason(), "Failed to call CompletionHandler within timeout");
        }
        other => panic!("unexpected status {:?}", other),
    }
    // the real result arrives late and is dropped
    assert!(handler.success().is_none());
    assert!(handler.report(Ok(true)).is_none());
    assert!(handler.on_timeout().is_none());
}

#[test]
fn report_classifies_by_taxonomy() {
    let mut ok = CompletionHandler::new(0);
    assert!(matches!(ok.report(Ok(false)), Some(CompletionStatus::Success)));

    let mut transient = CompletionHandler::new(0);
    assert!(matches!(
        transient.report(Err(ErrorKind::recoverable("endpoint down"))),
        Some(CompletionStatus::Retry(_, 1))
    ));

    let mut permanent = CompletionHandler::new(0);
    assert!(matches!(
        permanent.report(Err(ErrorKind::unrecoverable("no such file"))),
        Some(CompletionStatus::Abort(_))
    ));

    let mut untagged = CompletionHandler::new(7);
    match untagged.report(Err(ErrorKind::message("who knows"))) {
        Some(CompletionStatus::Retry(cause, tries)) => {
            assert_eq!(tries, 8);
            assert_eq!(cause.class(), ErrorClass::Unclassified);
            assert_eq!(cause.reason(), "who knows");
        }
        other => panic!("unexpected status {:?}", other),
    }
}

#[test]
fn error_kinds_know_their_class() {
    let r = ErrorKind::recoverable("a");
    let u = ErrorKind::unrecoverable("b");
    let m = ErrorKind::message("c");
    assert!(r.is_retryable());
    assert!(!u.is_retryable());
    assert!(m.is_retryable());
    assert_eq!(r.class(), ErrorClass::Recoverable);
    assert_eq!(u.class(), ErrorClass::Unrecoverable);
    assert_eq!(m.class(), ErrorClass::Unclassified);
    let copy = u.clone();
    assert_eq!(copy.reason(), "b");
    assert_eq!(copy.class(), ErrorClass::Unrecoverable);
}

#[test]
fn status_clone_keeps_the_status() {
    let status = CompletionStatus::Retry(ErrorKind::recoverable("x"), 2);
    match status.clone() {
        CompletionStatus::Retry(cause, tries) => {
            assert_eq!(tries, 2);
            assert_eq!(cause.reason(), "x");
        }
        other => panic!("unexpected status {:?}", other),
    }
}
