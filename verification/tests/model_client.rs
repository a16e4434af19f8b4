use spam_detection::errors::ErrorClass;
use spam_detection::model::{PredictionCache, PythonModel, Startup, STARTUP_PROBES};

#[test]
fn a_cached_prediction_is_found_again() {
    let mut cache = PredictionCache::new();
    assert_eq!(cache.get(vec![1, 2, 3]), None);
    cache.set(vec![1, 2, 3], true);
    cache.set(vec![4, 5, 6], false);
    assert_eq!(cache.get(vec![1, 2, 3]), Some(true));
    assert_eq!(cache.get(vec![4, 5, 6]), Some(false));
    assert_eq!(cache.get(vec![7]), None);
}

#[test]
fn the_prediction_cache_keeps_ten_predictions() {
    let mut cache = PredictionCache::new();
    for n in 0..11u8 {
        cache.set(vec![n], n % 2 == 0);
    }
    assert_eq!(cache.get(vec![0]), None);
    for n in 1..11u8 {
        assert_eq!(cache.get(vec![n]), Some(n % 2 == 0));
    }
}

#[test]
fn the_key_is_the_hash_followed_by_the_word_prediction() {
    assert_eq!(PredictionCache::key_for(vec![1, 2]), b"\x01\x02prediction".to_vec());
    assert_eq!(PredictionCache::key_for(vec![]), b"prediction".to_vec());
}

#[test]
fn cached_bytes_decode_to_a_prediction_or_nothing() {
    assert_eq!(PredictionCache::decode(Some(vec![1])), Some(true));
    assert_eq!(PredictionCache::decode(Some(vec![0])), Some(false));
    assert_eq!(PredictionCache::decode(Some(vec![2])), None);
    assert_eq!(PredictionCache::decode(Some(vec![])), None);
    assert_eq!(PredictionCache::decode(Some(vec![1, 1])), None);
    assert_eq!(PredictionCache::decode(None), None);
}

#[test]
fn a_prediction_cache_can_be_made_smaller() {
    let mut cache = PredictionCache::with_limits(60, 1);
    cache.set(vec![1], true);
    cache.set(vec![2], false);
    assert_eq!(cache.get(vec![1]), None);
    assert_eq!(cache.get(vec![2]), Some(false));
}

#[test]
fn replies_are_read_by_their_body() {
    let model = PythonModel::new(12000);
    assert_eq!(model.port(), 12000);
    assert!(matches!(model.predict(Ok("T".to_string())), Ok(true)));
    assert!(matches!(model.predict(Ok("F".to_string())), Ok(false)));
    match model.predict(Ok("maybe".to_string())) {
        Err(e) => {
            assert_eq!(e.class(), ErrorClass::Unclassified);
            assert_eq!(e.reason(), "Failed to parse python service response as boolean");
            assert!(e.is_retryable());
        }
        Ok(_) => panic!("an unreadable reply was read"),
    }
    assert!(model.predict(Ok("".to_string())).is_err());
    assert!(model.predict(Ok("TT".to_string())).is_err());
    assert!(model.predict(Ok("t".to_string())).is_err());
}

#[test]
fn a_request_without_reply_fails_transiently() {
    let model = PythonModel::new(12000);
    match model.predict(Err("connection refused".to_string())) {
        Err(e) => {
            assert_eq!(e.class(), ErrorClass::Recoverable);
            assert_eq!(e.reason(), "Failed to predict connection refused");
        }
        Ok(_) => panic!("a failed request was read as a prediction"),
    }
}

#[test]
fn startup_probes_back_off_and_give_up_after_fifteen() {
    let mut model = PythonModel::new(10000);
    let mut waits = Vec::new();
    loop {
        match model.startup() {
            Startup::Probe { wait_ms } => {
                waits.push(wait_ms);
                model.probed(false);
            }
            other => {
                assert_eq!(other, Startup::Failed);
                break;
            }
        }
    }
    assert_eq!(waits.len(), 15);
    assert_eq!(STARTUP_PROBES, 15);
    assert_eq!(waits[0], 2);
    assert_eq!(waits[1], 4);
    assert_eq!(waits[13], 16384);
    assert_eq!(waits[14], 32768);
    // a model that was given up stays given up
    model.probed(true);
    assert_eq!(model.startup(), Startup::Failed);
}

#[test]
fn an_answered_probe_makes_the_model_ready() {
    let mut model = PythonModel::new(10000);
    assert_eq!(model.startup(), Startup::Probe { wait_ms: 2 });
    model.probed(false);
    model.probed(false);
    assert_eq!(model.startup(), Startup::Probe { wait_ms: 8 });
    model.probed(true);
    assert_eq!(model.startup(), Startup::Ready);
    model.probed(false);
    assert_eq!(model.startup(), Startup::Ready);
}
