use spam_detection::email::MailParser;
use spam_detection::errors::ErrorClass;
use spam_detection::extraction::{
    analyzer_failure, Extraction, FeatureExtractionManager, FeatureExtractor,
    EXTRACTION_DEADLINE_MS,
};

#[test]
fn the_body_of_a_plain_message_is_its_text() {
    let parser = MailParser::new();
    let message = parser.parse(b"Subject: test\n\nThis is the body").unwrap();
    assert_eq!(message.body, Some("This is the body".to_string()));
    assert_eq!(message.get_body(), "This is the body");
}

#[test]
fn a_base64_body_is_decoded() {
    let parser = MailParser::new();
    let raw = b"Content-Transfer-Encoding: base64\n\naGVsbG8gd29ybGQ=";
    let message = parser.parse(raw).unwrap();
    assert_eq!(message.get_body(), "hello world");
}

#[test]
fn a_parse_failure_is_unrecoverable() {
    match MailParser::accept(Err("Unexpected end of header".to_string())) {
        Err(e) => {
            assert_eq!(e.class(), ErrorClass::Unrecoverable);
            assert_eq!(e.reason(), "Failed to parse mail with Unexpected end of header");
        }
        Ok(_) => panic!("a failure was accepted as a message"),
    }
}

#[test]
fn a_body_that_does_not_decode_counts_as_empty() {
    let message = MailParser::accept(Ok(None)).unwrap();
    assert_eq!(message.body, None);
    assert_eq!(message.get_body(), "");
}

#[test]
fn extraction_asks_for_the_analysis_of_the_body() {
    let mut extractor = FeatureExtractor::new(MailParser::new());
    assert_eq!(extractor.deadline_ms(), 50);
    assert_eq!(EXTRACTION_DEADLINE_MS, 50);
    match extractor.extract::<(f32, f32, f32)>(b"Subject: offer\n\nyou won") {
        Extraction::Analyze(text) => assert_eq!(text, "you won"),
        other => panic!("unexpected step {:?}", other),
    }
    assert!(!extractor.is_complete());
    match extractor.set_sentiment((0.5f32, 0.0f32, 0.5f32)) {
        Extraction::Finished(Ok(features)) => {
            assert_eq!(features.sentiment_analysis, (0.5f32, 0.0f32, 0.5f32))
        }
        other => panic!("unexpected step {:?}", other),
    }
    assert!(extractor.is_complete());
    // the deadline passes after the features were handed on: nothing follows
    assert!(matches!(extractor.on_timeout::<(f32, f32, f32)>(), Extraction::Nothing));
}

#[test]
fn a_timed_out_extraction_fails_transiently_and_drops_the_analysis() {
    let mut extractor = FeatureExtractor::new(MailParser::new());
    assert!(matches!(
        extractor.extract::<u8>(b"Subject: offer\n\nyou won"),
        Extraction::Analyze(_)
    ));
    match extractor.on_timeout::<u8>() {
        Extraction::Finished(Err(e)) => {
            assert_eq!(e.class(), ErrorClass::Recoverable);
            assert_eq!(e.reason(), "FeatureExtractor timed out");
        }
        other => panic!("unexpected step {:?}", other),
    }
    assert!(matches!(extractor.set_sentiment(1u8), Extraction::Nothing));
    assert!(matches!(extractor.on_timeout::<u8>(), Extraction::Nothing));
    assert!(matches!(extractor.extract::<u8>(b"x"), Extraction::Nothing));
}

#[test]
fn a_failed_analysis_ends_the_extraction() {
    let mut extractor = FeatureExtractor::new(MailParser::new());
    match extractor.fail::<u8>(analyzer_failure()) {
        Extraction::Finished(Err(e)) => {
            assert_eq!(e.class(), ErrorClass::Unrecoverable);
            assert_eq!(e.reason(), "An unexpected error occurred in sentiment analyzer");
        }
        other => panic!("unexpected step {:?}", other),
    }
    assert!(extractor.is_complete());
    assert!(matches!(extractor.set_sentiment(1u8), Extraction::Nothing));
}

#[test]
fn the_manager_starts_a_fresh_extractor_for_each_message() {
    let manager = FeatureExtractionManager::new(MailParser::new());
    let (mut first, step) = manager.extract::<u8>(b"Subject: a\n\none");
    match step {
        Extraction::Analyze(text) => assert_eq!(text, "one"),
        other => panic!("unexpected step {:?}", other),
    }
    assert!(matches!(first.on_timeout::<u8>(), Extraction::Finished(Err(_))));
    let (second, step) = manager.extract::<u8>(b"Subject: b\n\ntwo");
    match step {
        Extraction::Analyze(text) => assert_eq!(text, "two"),
        other => panic!("unexpected step {:?}", other),
    }
    assert!(!second.is_complete());
}

#[test]
fn bytes_that_are_no_message_fail_for_good() {
    match MailParser::new().parse(b"\rX") {
        Err(e) => {
            assert_eq!(e.class(), ErrorClass::Unrecoverable);
            assert_eq!(
                e.reason(),
                "Failed to parse mail with Headers were followed by an unexpected lone CR character!"
            );
            assert!(!e.is_retryable());
        }
        Ok(message) => panic!("parsed {:?}", message),
    }
}

#[test]
fn an_extraction_ends_on_bytes_that_are_no_message() {
    let mut extractor = FeatureExtractor::new(MailParser::new());
    match extractor.extract::<u8>(b" overhanging") {
        Extraction::Finished(Err(e)) => assert_eq!(e.class(), ErrorClass::Unrecoverable),
        other => panic!("unexpected step {:?}", other),
    }
    assert!(extractor.is_complete());
    assert!(matches!(extractor.set_sentiment(1u8), Extraction::Nothing));
}
