use spam_detection::email_reader::{
    backoff_ms, settle, Dispatch, EmailReader, PendingItem, MAX_BACKOFF_MS, RETRY_CEILING,
};
use spam_detection::errors::{ErrorClass, ErrorKind};
use spam_detection::files::{FileReaderPool, ReadPlan};
use spam_detection::state::CompletionHandler;

fn queue_with(workers: Vec<u64>, readers: usize) -> EmailReader {
    EmailReader::new(workers, FileReaderPool::new(readers))
}

fn dispatched(out: Option<Dispatch>) -> Dispatch {
    match out {
        Some(d) => d,
        None => panic!("nothing was dispatched"),
    }
}

#[test]
fn workers_start_idle_and_duplicates_count_once() {
    let queue = queue_with(vec![7, 8, 7], 1);
    assert!(queue.is_idle(7));
    assert!(queue.is_idle(8));
    assert!(!queue.is_idle(9));
    assert_eq!(queue.backlog_len(), 0);
}

#[test]
fn a_submission_goes_to_the_first_idle_worker_at_once() {
    let mut queue = queue_with(vec![1, 2], 4);
    let first = dispatched(queue.add_file("A.eml".to_string(), 100));
    assert_eq!(first.worker, 1);
    assert_eq!(first.item.path, "A.eml");
    assert_eq!(first.item.tries, 0);
    assert_eq!(first.item.sink, 100);
    assert!(first.prefetch.is_none());
    assert!(matches!(first.read, ReadPlan::Read { reader: 0 }));
    assert!(!queue.is_idle(1));
    assert!(queue.is_idle(2));
    // the item stays in the backlog, at its tail, until it is finished
    assert_eq!(queue.backlog_len(), 1);

    // the second worker is pulled at once, and is handed the head of the backlog
    let second = dispatched(queue.add_file("B.eml".to_string(), 101));
    assert_eq!(second.worker, 2);
    assert_eq!(second.item.path, "A.eml");
    assert_eq!(second.prefetch.map(|p| p.path), Some("B.eml".to_string()));
    assert!(!queue.is_idle(2));

    // no worker is idle: the next submission waits in the backlog
    assert!(queue.add_file("C.eml".to_string(), 102).is_none());
    assert_eq!(queue.backlog_len(), 3);
}

#[test]
fn a_finished_item_leaves_the_backlog_and_the_queue_drains() {
    let mut queue = queue_with(vec![1], 2);
    dispatched(queue.add_file("A.eml".to_string(), 7));
    assert!(queue.add_file("B.eml".to_string(), 8).is_none());
    assert_eq!(queue.backlog_len(), 2);
    let next = dispatched(queue.finish_file(1, 7));
    assert_eq!(next.item.path, "B.eml");
    assert!(next.prefetch.is_none());
    assert_eq!(queue.backlog_len(), 1);
    assert!(queue.finish_file(1, 8).is_none());
    assert_eq!(queue.backlog_len(), 0);
    assert!(queue.is_idle(1));
    // what is gone cannot be removed again
    assert!(!queue.remove_file(7));
    assert!(!queue.remove_file(8));
}

#[test]
fn remove_file_takes_out_the_items_of_one_ticket() {
    let mut queue = queue_with(vec![], 1);
    queue.add_file("A.eml".to_string(), 1);
    queue.add_file("B.eml".to_string(), 2);
    queue.add_file("C.eml".to_string(), 1);
    assert_eq!(queue.backlog_len(), 3);
    assert!(queue.remove_file(1));
    assert_eq!(queue.backlog_len(), 1);
    assert!(!queue.remove_file(3));
    assert_eq!(queue.fetch_next().map(|p| p.path), Some("B.eml".to_string()));
}

#[test]
fn backlog_round_robin() {
    let mut queue = queue_with(vec![1], 4);
    // the one idle worker is taken by a first file, so that the next three queue up
    let warm = dispatched(queue.add_file("warm.eml".to_string(), 0));
    assert_eq!(warm.worker, 1);
    assert!(queue.add_file("A.eml".to_string(), 1).is_none());
    assert!(queue.add_file("B.eml".to_string(), 2).is_none());
    assert!(queue.add_file("C.eml".to_string(), 3).is_none());
    assert!(queue.remove_file(0));
    assert_eq!(queue.backlog_len(), 3);

    // A is dispatched and goes to the tail, while B is read ahead
    let first = dispatched(queue.request_next_file(1));
    assert_eq!(first.item.path, "A.eml");
    assert_eq!(first.item.sink, 1);
    assert!(matches!(first.read, ReadPlan::Read { .. }));
    match &first.prefetch {
        Some(p) => assert_eq!(p.path, "B.eml"),
        None => panic!("B was not read ahead"),
    }
    assert_eq!(queue.backlog_len(), 3);

    // the second call dispatches B, not A again
    let second = dispatched(queue.request_next_file(1));
    assert_eq!(second.item.path, "B.eml");
    match &second.prefetch {
        Some(p) => assert_eq!(p.path, "C.eml"),
        None => panic!("C was not read ahead"),
    }

    let third = dispatched(queue.request_next_file(1));
    assert_eq!(third.item.path, "C.eml");
    assert_eq!(third.prefetch.map(|p| p.path), Some("A.eml".to_string()));

    // once round the backlog, it is the turn of A again
    let fourth = dispatched(queue.request_next_file(1));
    assert_eq!(fourth.item.path, "A.eml");
    assert_eq!(queue.backlog_len(), 3);

    // as the items are finished the backlog drains, and the worker becomes idle
    assert_eq!(dispatched(queue.finish_file(1, 1)).item.path, "B.eml");
    assert_eq!(dispatched(queue.finish_file(1, 2)).item.path, "C.eml");
    assert!(queue.finish_file(1, 3).is_none());
    assert_eq!(queue.backlog_len(), 0);
    assert!(queue.is_idle(1));
}

#[test]
fn prefetch_and_read_take_readers_in_turn() {
    let mut queue = queue_with(vec![1], 3);
    dispatched(queue.add_file("warm.eml".to_string(), 0));
    queue.add_file("A.eml".to_string(), 1);
    queue.add_file("B.eml".to_string(), 2);
    let d = dispatched(queue.finish_file(1, 0));
    assert_eq!(d.item.path, "A.eml");
    // the warm-up read used reader 0; the read-ahead of B comes first, then the read of A
    match d.prefetch {
        Some(p) => assert_eq!(p.reader, 1),
        None => panic!("B was not read ahead"),
    }
    assert!(matches!(d.read, ReadPlan::Read { reader: 2 }));
}

#[test]
fn a_prefetched_file_is_dispatched_from_the_cache() {
    let mut queue = queue_with(vec![1], 2);
    dispatched(queue.add_file("warm.eml".to_string(), 0));
    queue.add_file("A.eml".to_string(), 1);
    queue.add_file("B.eml".to_string(), 2);
    let a = dispatched(queue.finish_file(1, 0));
    assert_eq!(a.item.path, "A.eml");
    assert_eq!(a.prefetch.map(|p| p.path), Some("B.eml".to_string()));
    queue.cache_file("B.eml", vec![66]);
    let b = dispatched(queue.finish_file(1, 1));
    assert_eq!(b.item.path, "B.eml");
    match b.read {
        ReadPlan::Cached(bytes) => assert_eq!(bytes, vec![66]),
        other => panic!("unexpected plan {:?}", other),
    }
}

#[test]
fn an_unknown_worker_gets_nothing_and_changes_nothing() {
    let mut queue = queue_with(vec![1], 1);
    dispatched(queue.add_file("warm.eml".to_string(), 0));
    queue.add_file("A.eml".to_string(), 1);
    assert!(queue.request_next_file(99).is_none());
    assert!(queue.finish_file(99, 5).is_none());
    assert_eq!(queue.backlog_len(), 2);
    assert!(!queue.is_idle(99));
    assert!(queue.send_work_by_id(vec![1], 99).is_none());
}

#[test]
fn retry_requeues_at_the_tail_and_redispatches() {
    let mut queue = queue_with(vec![1], 1);
    dispatched(queue.add_file("A.eml".to_string(), 1));
    queue.add_file("B.eml".to_string(), 2);
    assert_eq!(queue.backlog_len(), 2);
    // A failed once: it is queued afresh behind B, and the worker gets B
    let next = dispatched(queue.retry_file_by_path(1, "A.eml".to_string(), 1, 1));
    assert_eq!(next.item.path, "B.eml");
    assert_eq!(next.prefetch.map(|p| p.path), Some("A.eml".to_string()));
    assert_eq!(queue.backlog_len(), 2);
    let again = dispatched(queue.request_next_file(1));
    assert_eq!(again.item.path, "A.eml");
    assert_eq!(again.item.tries, 1);
    assert_eq!(again.item.sink, 1);
}

#[test]
fn the_supervisor_of_a_dispatch_carries_its_tries() {
    let mut queue = queue_with(vec![1], 1);
    // an idle worker has nothing to work on
    assert!(queue.send_work_by_id(vec![1, 2], 1).is_none());
    dispatched(queue.add_file("A.eml".to_string(), 1));
    let order = queue.send_work_by_id(vec![1, 2], 1).unwrap();
    assert_eq!(order.worker, 1);
    assert_eq!(order.email, vec![1, 2]);
    assert_eq!(order.item.path, "A.eml");
    assert_eq!(order.item.sink, 1);
    assert_eq!(order.handler.tries(), 0);
    assert!(order.handler.is_pending());
    assert_eq!(order.handler.deadline_ms(), 30_000);
    dispatched(queue.retry_file_by_path(1, "A.eml".to_string(), 1, 3));
    assert_eq!(queue.send_work_by_id(vec![], 1).unwrap().handler.tries(), 3);
}

#[test]
fn an_item_whose_attempts_cannot_be_counted_gets_no_supervisor() {
    let item = PendingItem { path: "A.eml".to_string(), tries: usize::MAX, sink: 1 };
    assert!(EmailReader::gen_completion_handler(&item).is_none());
    let fresh = PendingItem { path: "A.eml".to_string(), tries: 2, sink: 1 };
    assert_eq!(EmailReader::gen_completion_handler(&fresh).unwrap().tries(), 2);
}

#[test]
fn fetch_next_reads_the_head_ahead_and_leaves_it() {
    let mut queue = queue_with(vec![1], 2);
    assert!(queue.fetch_next().is_none());
    dispatched(queue.add_file("warm.eml".to_string(), 0));
    assert!(queue.remove_file(0));
    queue.add_file("A.eml".to_string(), 1);
    let ahead = queue.fetch_next().unwrap();
    assert_eq!(ahead.path, "A.eml");
    assert_eq!(ahead.reader, 1);
    assert_eq!(queue.backlog_len(), 1);
    let d = dispatched(queue.request_next_file(1));
    assert_eq!(d.item.path, "A.eml");
}

#[test]
fn backoff_doubles_up_to_its_cap() {
    assert_eq!(backoff_ms(0), 1);
    assert_eq!(backoff_ms(1), 2);
    assert_eq!(backoff_ms(2), 4);
    assert_eq!(backoff_ms(5), 32);
    assert_eq!(backoff_ms(6), 64);
    assert_eq!(backoff_ms(15), 32768);
    assert_eq!(backoff_ms(16), MAX_BACKOFF_MS);
    assert_eq!(backoff_ms(1000), MAX_BACKOFF_MS);
    assert_eq!(RETRY_CEILING, 5);
}

#[test]
fn success_and_abort_finish_the_item() {
    let mut ok = CompletionHandler::new(2);
    let v = settle(&mut ok, "A.eml", Some(Ok(true))).unwrap();
    assert_eq!(v.delay_ms, 0);
    assert!(matches!(v.deliver, Some(Ok(true))));
    assert!(v.retry.is_none());

    let mut bad = CompletionHandler::new(0);
    let v = settle(&mut bad, "A.eml", Some(Err(ErrorKind::unrecoverable("malformed")))).unwrap();
    assert_eq!(v.delay_ms, 0);
    assert!(v.retry.is_none());
    match v.deliver {
        Some(Err(e)) => {
            assert_eq!(e.class(), ErrorClass::Unrecoverable);
            assert_eq!(e.reason(), "malformed");
        }
        other => panic!("unexpected result {:?}", other),
    }
}

#[test]
fn a_late_result_is_dropped() {
    let mut handler = CompletionHandler::new(0);
    let v = settle(&mut handler, "A.eml", None).unwrap();
    assert_eq!(v.retry, Some(1));
    assert_eq!(v.delay_ms, 2);
    assert!(v.deliver.is_none());
    assert!(settle(&mut handler, "A.eml", Some(Ok(true))).is_none());
    assert!(settle(&mut handler, "A.eml", None).is_none());
}

// Runs the attempts of one item: `outcomes` are what its dispatches end as, in order.
fn run_attempts(outcomes: Vec<Result<bool, ErrorKind>>) -> (Option<Result<bool, ErrorKind>>, usize) {
    let mut tries = 0usize;
    let mut used = 0usize;
    for outcome in outcomes {
        let mut handler = CompletionHandler::new(tries);
        used += 1;
        let verdict = settle(&mut handler, "A.eml", Some(outcome)).unwrap();
        match verdict.retry {
            Some(next) => tries = next,
            None => return (verdict.deliver, used),
        }
    }
    (None, used)
}

#[test]
fn six_failures_then_success_finalizes_as_failed() {
    let mut outcomes: Vec<Result<bool, ErrorKind>> = Vec::new();
    for _ in 0..6 {
        outcomes.push(Err(ErrorKind::recoverable("flaky")));
    }
    outcomes.push(Ok(true));
    let (result, used) = run_attempts(outcomes);
    assert_eq!(used, 6);
    match result {
        Some(Err(e)) => {
            assert_eq!(e.reason(), "Repeatedly failed to predict for path A.eml");
            assert_eq!(e.class(), ErrorClass::Unclassified);
        }
        other => panic!("unexpected result {:?}", other),
    }
}

#[test]
fn four_failures_then_success_finalizes_as_success() {
    let mut outcomes: Vec<Result<bool, ErrorKind>> = Vec::new();
    for _ in 0..4 {
        outcomes.push(Err(ErrorKind::recoverable("flaky")));
    }
    outcomes.push(Ok(true));
    let (result, used) = run_attempts(outcomes);
    assert_eq!(used, 5);
    assert!(matches!(result, Some(Ok(true))));
}

#[test]
fn five_failures_are_all_retried() {
    let mut outcomes: Vec<Result<bool, ErrorKind>> = Vec::new();
    for _ in 0..5 {
        outcomes.push(Err(ErrorKind::message("untagged")));
    }
    let (result, used) = run_attempts(outcomes);
    assert_eq!(used, 5);
    assert!(result.is_none());
}

#[test]
fn retries_pause_longer_each_time() {
    let mut delays = Vec::new();
    let mut tries = 0usize;
    loop {
        let mut handler = CompletionHandler::new(tries);
        let verdict =
            settle(&mut handler, "A.eml", Some(Err(ErrorKind::recoverable("flaky")))).unwrap();
        delays.push(verdict.delay_ms);
        match verdict.retry {
            Some(next) => tries = next,
            None => break,
        }
    }
    // the sixth failure gives the item up without a pause
    assert_eq!(delays, vec![2, 4, 8, 16, 32, 0]);
}
