use spam_detection::text_analysis::TextFeatureExtractor;

#[test]
fn the_text_feature_extractor_extracts_nothing() {
    let extractor = TextFeatureExtractor::new();
    extractor.analyze();
    assert_eq!(extractor, TextFeatureExtractor::new());
}
