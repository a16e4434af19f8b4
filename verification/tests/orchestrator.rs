use spam_detection::digest::hash_email;
use spam_detection::errors::{ErrorClass, ErrorKind};
use spam_detection::model::PredictionCache;
use spam_detection::service::{Action, Job, SpamDetectionService, Stage};

type Feats = (f32, f32, f32);

fn service() -> SpamDetectionService {
    SpamDetectionService::new(PredictionCache::new())
}

fn submit(service: &SpamDetectionService, path: &str, sink: u64) -> Job {
    let (job, action) = service.predict_with_cache::<Feats>(path.to_string(), sink);
    match action {
        Action::IssueWork { path: asked, attempt } => {
            assert_eq!(asked, path);
            assert_eq!(attempt, 0);
        }
        other => panic!("unexpected action {:?}", other),
    }
    assert_eq!(job.attempt(), 0);
    assert_eq!(job.deadline_ms(), 30_000);
    job
}

#[test]
fn integration_test() {
    // end to end: a miss runs the whole pipeline, and the same content under
    // another path is then answered from the prediction cache
    let mut service = service();
    let bytes = b"Subject: offer\n\nyou won".to_vec();

    let mut job = submit(&service, "A.eml", 1);
    assert_eq!(job.stage(), Stage::IssueWork);
    match service.issue_work::<Feats>(&mut job, 0, Ok(bytes.clone())) {
        Action::Extract { email, attempt } => {
            assert_eq!(email, bytes);
            assert_eq!(attempt, 0);
        }
        other => panic!("unexpected action {:?}", other),
    }
    assert_eq!(job.stage(), Stage::Extract);
    match service.predict(&mut job, 0, Ok((0.1f32, 0.2f32, 0.3f32))) {
        Action::Predict { features, attempt } => {
            assert_eq!(features, (0.1f32, 0.2f32, 0.3f32));
            assert_eq!(attempt, 0);
        }
        other => panic!("unexpected action {:?}", other),
    }
    assert_eq!(job.stage(), Stage::Predict);
    match service.complete::<Feats>(&mut job, 0, Ok(true)) {
        Action::Finalize { sink, result } => {
            assert_eq!(sink, 1);
            assert!(matches!(result, Ok(true)));
        }
        other => panic!("unexpected action {:?}", other),
    }
    assert_eq!(job.stage(), Stage::Done);

    let mut again = submit(&service, "elsewhere/B.eml", 2);
    match service.issue_work::<Feats>(&mut again, 0, Ok(bytes.clone())) {
        Action::Finalize { sink, result } => {
            assert_eq!(sink, 2);
            assert!(matches!(result, Ok(true)));
        }
        other => panic!("unexpected action {:?}", other),
    }
    assert_eq!(again.stage(), Stage::Done);
}

#[test]
fn a_finished_item_hands_out_no_second_result() {
    let mut service = service();
    let mut job = submit(&service, "A.eml", 1);
    service.issue_work::<Feats>(&mut job, 0, Ok(vec![1, 2, 3]));
    service.predict(&mut job, 0, Ok((0.0f32, 0.0f32, 0.0f32)));
    assert!(matches!(
        service.complete::<Feats>(&mut job, 0, Ok(false)),
        Action::Finalize { sink: 1, result: Ok(false) }
    ));
    assert!(matches!(service.complete::<Feats>(&mut job, 0, Ok(true)), Action::Nothing));
    assert!(matches!(service.on_timeout::<Feats>(&mut job, 0), Action::Nothing));
    assert!(matches!(service.issue_work::<Feats>(&mut job, 0, Ok(vec![1])), Action::Nothing));
    assert!(matches!(
        service.predict(&mut job, 0, Ok((0.0f32, 0.0f32, 0.0f32))),
        Action::Nothing
    ));
    assert!(matches!(service.retry_prediction::<Feats>(&mut job), Action::Nothing));
    assert_eq!(job.stage(), Stage::Done);
}

#[test]
fn events_that_do_not_fit_the_stage_are_dropped() {
    let mut service = service();
    let mut job = submit(&service, "A.eml", 1);
    assert!(matches!(service.complete::<Feats>(&mut job, 0, Ok(true)), Action::Nothing));
    assert!(matches!(
        service.predict(&mut job, 0, Ok((0.0f32, 0.0f32, 0.0f32))),
        Action::Nothing
    ));
    assert_eq!(job.stage(), Stage::IssueWork);
}

#[test]
fn a_late_result_of_an_earlier_attempt_is_dropped() {
    let mut service = service();
    let mut job = submit(&service, "slow.eml", 1);
    service.issue_work::<Feats>(&mut job, 0, Ok(vec![1]));
    service.predict(&mut job, 0, Ok((0.0f32, 0.0f32, 0.0f32)));
    // the model does not answer in time: the supervisor makes a retry of it
    match service.on_timeout::<Feats>(&mut job, 0) {
        Action::Resubmit { path, attempt, tries, delay_ms } => {
            assert_eq!(path, "slow.eml");
            assert_eq!(attempt, 1);
            assert_eq!(tries, 1);
            assert_eq!(delay_ms, 2);
        }
        other => panic!("unexpected action {:?}", other),
    }
    // the second attempt gets as far as the model
    service.issue_work::<Feats>(&mut job, 1, Ok(vec![1]));
    service.predict(&mut job, 1, Ok((0.0f32, 0.0f32, 0.0f32)));
    assert_eq!(job.stage(), Stage::Predict);
    // now the answer to the first attempt arrives, and its deadline once more
    assert!(matches!(service.complete::<Feats>(&mut job, 0, Ok(true)), Action::Nothing));
    assert!(matches!(service.on_timeout::<Feats>(&mut job, 0), Action::Nothing));
    assert_eq!(job.stage(), Stage::Predict);
    assert_eq!(job.attempt(), 1);
    // the answer to the second attempt is the one result
    assert!(matches!(
        service.complete::<Feats>(&mut job, 1, Ok(false)),
        Action::Finalize { sink: 1, result: Ok(false) }
    ));
}

#[test]
fn an_unrecoverable_failure_aborts_at_once() {
    let mut service = service();
    let mut job = submit(&service, "A.eml", 9);
    service.issue_work::<Feats>(&mut job, 0, Ok(vec![1, 2, 3]));
    match service.predict::<Feats>(&mut job, 0, Err(ErrorKind::unrecoverable("malformed mail"))) {
        Action::Finalize { sink, result: Err(e) } => {
            assert_eq!(sink, 9);
            assert_eq!(e.class(), ErrorClass::Unrecoverable);
            assert_eq!(e.reason(), "malformed mail");
        }
        other => panic!("unexpected action {:?}", other),
    }
    assert_eq!(job.stage(), Stage::Done);
}

#[test]
fn a_file_that_cannot_be_read_aborts() {
    let mut service = service();
    let mut job = submit(&service, "missing.eml", 9);
    match service.issue_work::<Feats>(
        &mut job,
        0,
        Err(ErrorKind::unrecoverable("Failed to read file")),
    ) {
        Action::Finalize { sink: 9, result: Err(e) } => {
            assert_eq!(e.reason(), "Failed to read file")
        }
        other => panic!("unexpected action {:?}", other),
    }
}

// Drives one item whose attempts fail transiently `failures` times at the model, then succeed.
fn drive(
    service: &mut SpamDetectionService,
    path: &str,
    failures: usize,
) -> (Result<bool, ErrorKind>, usize) {
    let mut job = submit(service, path, 5);
    let mut attempts = 0usize;
    loop {
        attempts += 1;
        let attempt = job.attempt();
        assert_eq!(attempt, (attempts - 1) as u64);
        assert_eq!(job.stage(), Stage::IssueWork);
        assert_eq!(job.tries(), attempts - 1);
        match service.issue_work::<Feats>(&mut job, attempt, Ok(path.as_bytes().to_vec())) {
            Action::Extract { .. } => {}
            other => panic!("unexpected action {:?}", other),
        }
        match service.predict(&mut job, attempt, Ok((0.0f32, 0.0f32, 0.0f32))) {
            Action::Predict { .. } => {}
            other => panic!("unexpected action {:?}", other),
        }
        let outcome = if attempts <= failures {
            Err(ErrorKind::recoverable("model endpoint unreachable"))
        } else {
            Ok(true)
        };
        match service.complete::<Feats>(&mut job, attempt, outcome) {
            Action::Resubmit { path: asked, attempt: next, tries, delay_ms } => {
                assert_eq!(asked, path);
                assert_eq!(next, attempt + 1);
                assert_eq!(tries, attempts);
                assert_eq!(delay_ms, 1u64 << attempts);
            }
            Action::Finalize { sink, result } => {
                assert_eq!(sink, 5);
                assert_eq!(job.stage(), Stage::Done);
                return (result, attempts);
            }
            other => panic!("unexpected action {:?}", other),
        }
    }
}

#[test]
fn retry_ceiling_is_hit_before_a_seventh_attempt() {
    let mut service = service();
    let (result, attempts) = drive(&mut service, "flaky.eml", 6);
    assert_eq!(attempts, 6);
    match result {
        Err(e) => {
            assert_eq!(e.reason(), "Repeatedly failed to predict for path flaky.eml");
            assert!(e.is_retryable());
        }
        Ok(_) => panic!("the item succeeded past the ceiling"),
    }
}

#[test]
fn success_on_the_fifth_attempt_is_delivered() {
    let mut service = service();
    let (result, attempts) = drive(&mut service, "shaky.eml", 4);
    assert_eq!(attempts, 5);
    assert!(matches!(result, Ok(true)));
    // the prediction was cached under the content hash
    let mut again = submit(&service, "other.eml", 6);
    assert!(matches!(
        service.issue_work::<Feats>(&mut again, 0, Ok(b"shaky.eml".to_vec())),
        Action::Finalize { sink: 6, result: Ok(true) }
    ));
}

#[test]
fn an_item_that_always_fails_ends_after_six_attempts() {
    let mut service = service();
    let (result, attempts) = drive(&mut service, "broken.eml", 1000);
    assert_eq!(attempts, 6);
    assert!(result.is_err());
}

#[test]
fn a_timeout_counts_as_a_transient_failure() {
    let mut service = service();
    let mut job = submit(&service, "slow.eml", 3);
    service.issue_work::<Feats>(&mut job, 0, Ok(vec![1]));
    match service.on_timeout::<Feats>(&mut job, 0) {
        Action::Resubmit { path, attempt, .. } => {
            assert_eq!(path, "slow.eml");
            assert_eq!(attempt, 1);
        }
        other => panic!("unexpected action {:?}", other),
    }
    assert_eq!(job.stage(), Stage::IssueWork);
    assert_eq!(job.tries(), 1);
    assert_eq!(job.sink(), 3);
}

#[test]
fn retries_are_counted_per_path() {
    let mut service = service();
    let mut a = submit(&service, "a.eml", 1);
    let mut b = submit(&service, "b.eml", 2);
    service.on_timeout::<Feats>(&mut a, 0);
    service.on_timeout::<Feats>(&mut a, 1);
    service.on_timeout::<Feats>(&mut b, 0);
    assert_eq!(a.tries(), 2);
    assert_eq!(b.tries(), 1);
}

#[test]
fn counts_are_stored_as_eight_bytes() {
    assert_eq!(SpamDetectionService::count_after(None), 1);
    assert_eq!(SpamDetectionService::count_after(Some(vec![4, 0, 0, 0, 0, 0, 0, 0])), 5);
    assert_eq!(SpamDetectionService::count_after(Some(vec![0, 1, 0, 0, 0, 0, 0, 0])), 257);
    assert_eq!(SpamDetectionService::count_after(Some(vec![9])), 1);
    assert_eq!(SpamDetectionService::count_after(Some(vec![0xff; 8])), u64::MAX);
}

#[test]
fn route_and_retry_decide_from_the_cache_answers() {
    let service = service();
    let mut job = submit(&service, "A.eml", 4);
    let hash = hash_email(&[1, 2]);
    assert!(matches!(
        job.route::<Feats>(vec![1, 2], hash.clone(), Some(false)),
        Action::Finalize { sink: 4, result: Ok(false) }
    ));
    assert!(matches!(job.route::<Feats>(vec![1, 2], hash, None), Action::Nothing));

    let mut other = submit(&service, "B.eml", 5);
    assert!(matches!(
        other.retry_after::<Feats>(5),
        Action::Resubmit { attempt: 1, tries: 5, delay_ms: 32, .. }
    ));
    assert_eq!(other.tries(), 5);
    assert!(matches!(
        other.retry_after::<Feats>(6),
        Action::Finalize { sink: 5, result: Err(_) }
    ));
    assert!(matches!(other.retry_after::<Feats>(1), Action::Nothing));
}

#[test]
fn the_deadline_of_the_attempts_can_be_set() {
    let mut service = SpamDetectionService::with_deadline(PredictionCache::new(), 250);
    let (mut job, _) = service.predict_with_cache::<Feats>("A.eml".to_string(), 1);
    assert_eq!(job.deadline_ms(), 250);
    assert!(matches!(
        service.on_timeout::<Feats>(&mut job, 0),
        Action::Resubmit { attempt: 1, .. }
    ));
    assert_eq!(job.deadline_ms(), 250);
    assert_eq!(job.tries(), 1);
}
