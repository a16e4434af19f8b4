//! Features of the text of a message. None is defined so far: the extractor
//! marks the place in the pipeline where they will be computed.

use vstd::prelude::*;

verus! {

/// Extracts the text features of a message. It keeps no state.
#[derive(Clone, Copy, Debug, PartialEq, Eq, Structural)]
pub struct TextFeatureExtractor {}

impl TextFeatureExtractor {
    /// An extractor of text features.
    pub fn new() -> (extractor: TextFeatureExtractor)
        ensures
            extractor == (TextFeatureExtractor {  }),
    {
        TextFeatureExtractor {  }
    }

    /// Analyzes a message. With no text feature defined there is nothing to
    /// extract, and nothing is returned.
    pub fn analyze(&self) {
    }
}

} // verus!
