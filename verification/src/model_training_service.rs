//! Training: a labelled message yields a truth value at once and its
//! features once they are extracted, both stored under its content hash.

use crate::digest::{content_hash, hash_email};
use crate::errors::ErrorKind;
use crate::extraction::{
    Extraction, ExtractorView, FeatureExtractionManager, FeatureExtractor, Features,
};
use vstd::prelude::*;

verus! {

/// The label of a training sample, to be stored under its content hash.
#[derive(Debug)]
pub struct TruthValue {
    pub hash: Vec<u8>,
    pub truth: bool,
}

/// The analysis of a training sample, to be stored under its content hash.
#[derive(Debug)]
pub struct StoredFeatures<A> {
    pub hash: Vec<u8>,
    pub sentiment_analysis: A,
}

/// A training sample on its way: its label, which is stored at once, and the
/// extraction of its features, which has taken its first step.
#[derive(Debug)]
pub struct Training<A> {
    pub truth_value: TruthValue,
    pub extractor: FeatureExtractor,
    pub step: Extraction<A>,
}

/// Turns labelled messages into what the feature store keeps.
#[derive(Clone, Copy, Debug, PartialEq, Eq, Structural)]
pub struct ModelTrainingService {
    extractor: FeatureExtractionManager,
}

impl ModelTrainingService {
    /// The manager that starts the extractions.
    pub closed spec fn extractor(&self) -> FeatureExtractionManager {
        self.extractor
    }

    /// A training service whose features come from `extractor`.
    pub fn new(extractor: FeatureExtractionManager) -> (service: ModelTrainingService)
        ensures
            service.extractor() == extractor,
    {
        ModelTrainingService { extractor }
    }

    /// Takes a message and its label: the label is to be stored under the
    /// content hash of the message, and the extraction of its features
    /// starts.
    pub fn train_model<A>(&self, email: &[u8], is_malicious: bool) -> (training: Training<A>)
        ensures
            training.truth_value.hash@ == content_hash(email@),
            training.truth_value.truth == is_malicious,
            (training.step@, training.extractor@) == (ExtractorView {
                timed_out: false,
                settled: false,
            }).started::<A>(email@),
    {
        let hash = hash_email(email);
        let (extractor, step) = self.extractor.extract(email);
        Training { truth_value: TruthValue { hash, truth: is_malicious }, extractor, step }
    }

    /// Takes the end of the extraction for the sample with content hash
    /// `hash`: features are to be stored under the hash; a failure leaves
    /// nothing to store, and goes no further.
    pub fn features_ready<A>(&self, hash: Vec<u8>, features: Result<Features<A>, ErrorKind>) -> (stored:
        Option<StoredFeatures<A>>)
        ensures
            match features {
                Ok(features) => stored matches Some(s) && s.hash@ == hash@ && s.sentiment_analysis
                    == features.sentiment_analysis,
                Err(_) => stored is None,
            },
    {
        match features {
            Ok(features) => Some(
                StoredFeatures { hash, sentiment_analysis: features.sentiment_analysis },
            ),
            Err(_) => None,
        }
    }
}

} // verus!
