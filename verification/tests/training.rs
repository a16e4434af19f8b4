use spam_detection::digest::hash_email;
use spam_detection::email::MailParser;
use spam_detection::errors::ErrorKind;
use spam_detection::extraction::{Extraction, FeatureExtractionManager, Features};
use spam_detection::labels::{find_byte, parse_label, truth_values};
use spam_detection::model_training_service::ModelTrainingService;
use spam_detection::tally::Tally;

#[test]
fn labels_are_read_line_by_line() {
    let labels = truth_values(b"0 TRAIN_00000.eml\n1 TRAIN_00001.eml\n").unwrap();
    assert_eq!(
        labels,
        vec![(b"TRAIN_00000.eml".to_vec(), true), (b"TRAIN_00001.eml".to_vec(), false)]
    );
}

#[test]
fn empty_lines_are_passed_over() {
    assert_eq!(truth_values(b""), Some(vec![]));
    assert_eq!(truth_values(b"\n\n"), Some(vec![]));
    assert_eq!(truth_values(b"\n1 a\n\n0 b"), Some(vec![(b"a".to_vec(), false), (b"b".to_vec(), true)]));
}

#[test]
fn a_bad_line_spoils_the_file() {
    assert_eq!(truth_values(b"0 a\n2 b\n"), None);
    assert_eq!(truth_values(b"0 a\n0\n"), None);
    assert_eq!(truth_values(b"0 a\nspam b\n"), None);
    assert_eq!(truth_values(b" a\n"), None);
}

#[test]
fn one_label_is_a_score_a_space_and_a_name() {
    assert_eq!(parse_label(b"0 mail.eml"), Some((b"mail.eml".to_vec(), true)));
    assert_eq!(parse_label(b"1 mail.eml"), Some((b"mail.eml".to_vec(), false)));
    assert_eq!(parse_label(b"1 mail.eml extra words"), Some((b"mail.eml".to_vec(), false)));
    assert_eq!(parse_label(b"0  mail.eml"), Some((b"".to_vec(), true)));
    assert_eq!(parse_label(b"0 "), Some((b"".to_vec(), true)));
    assert_eq!(parse_label(b"0"), None);
    assert_eq!(parse_label(b"01 mail.eml"), None);
    assert_eq!(parse_label(b""), None);
}

#[test]
fn find_byte_stops_at_the_first_match_or_the_end() {
    assert_eq!(find_byte(b"abcabc", 0, b'c'), 2);
    assert_eq!(find_byte(b"abcabc", 3, b'c'), 5);
    assert_eq!(find_byte(b"abcabc", 0, b'x'), 6);
    assert_eq!(find_byte(b"abcabc", 6, b'a'), 6);
    assert_eq!(find_byte(b"", 0, b'a'), 0);
}

#[test]
fn a_training_sample_yields_its_label_and_starts_extraction() {
    let service = ModelTrainingService::new(FeatureExtractionManager::new(MailParser::new()));
    let raw = b"Subject: offer\n\nyou won";
    let mut training = service.train_model::<(f32, f32, f32)>(raw, true);
    assert_eq!(training.truth_value.hash, hash_email(raw));
    assert!(training.truth_value.truth);
    match &training.step {
        Extraction::Analyze(text) => assert_eq!(text, "you won"),
        other => panic!("unexpected step {:?}", other),
    }
    let hash = training.truth_value.hash.clone();
    match training.extractor.set_sentiment((1.0f32, 0.0f32, 1.0f32)) {
        Extraction::Finished(result) => {
            let stored = service.features_ready(hash.clone(), result).unwrap();
            assert_eq!(stored.hash, hash);
            assert_eq!(stored.sentiment_analysis, (1.0f32, 0.0f32, 1.0f32));
        }
        other => panic!("unexpected step {:?}", other),
    }
}

#[test]
fn failed_features_are_not_stored() {
    let service = ModelTrainingService::new(FeatureExtractionManager::new(MailParser::new()));
    let failed: Result<Features<u8>, ErrorKind> = Err(ErrorKind::recoverable("timed out"));
    assert!(service.features_ready(vec![1], failed).is_none());
    let fine: Result<Features<u8>, ErrorKind> = Ok(Features { sentiment_analysis: 3 });
    assert_eq!(service.features_ready(vec![1], fine).unwrap().sentiment_analysis, 3);
}

#[test]
fn the_tally_is_complete_when_every_submission_ended() {
    let mut tally = Tally::new(3);
    assert!(!tally.is_complete());
    tally.record(1, &Ok(true));
    tally.record(1, &Ok(true));
    tally.record(2, &Err(ErrorKind::recoverable("flaky")));
    tally.record(2, &Err(ErrorKind::message("untagged")));
    assert_eq!(tally.ok_count(), 1);
    assert_eq!(tally.retried_count(), 1);
    assert_eq!(tally.aborted_count(), 0);
    assert!(!tally.is_complete());
    tally.record(2, &Ok(false));
    tally.record(3, &Err(ErrorKind::unrecoverable("malformed")));
    assert_eq!(tally.ok_count(), 2);
    assert_eq!(tally.aborted_count(), 1);
    assert!(tally.is_complete());
}

#[test]
fn an_empty_run_is_complete_at_once() {
    assert!(Tally::new(0).is_complete());
}
