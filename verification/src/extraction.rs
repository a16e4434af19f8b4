//! Feature extraction for one message: parse it, have the text of its body
//! analyzed, and hand the features on, unless the time for this has run out.

use crate::email::{admitted, mail_reading, MailParser};
use crate::errors::{ErrorClass, ErrorKind, ErrorView};
use vstd::prelude::*;

verus! {

/// Milliseconds that the extraction of one message may take.
pub const EXTRACTION_DEADLINE_MS: u64 = 50;

/// The features of a message. `A` is what the analysis of its text yields.
#[derive(Debug)]
pub struct Features<A> {
    pub sentiment_analysis: A,
}

/// What an extractor asks for or hands on.
#[derive(Debug)]
pub enum Extraction<A> {
    /// The text of the body is to be analyzed.
    Analyze(String),
    /// The extraction has ended with these features or this failure.
    Finished(Result<Features<A>, ErrorKind>),
    /// Nothing follows: the extraction had ended before.
    Nothing,
}

/// Mathematical value of an [`Extraction`].
pub enum ExtractionView<A> {
    Analyze(Seq<char>),
    Finished(Result<A, ErrorView>),
    Nothing,
}

impl<A> View for Extraction<A> {
    type V = ExtractionView<A>;

    open spec fn view(&self) -> ExtractionView<A> {
        match self {
            Extraction::Analyze(text) => ExtractionView::Analyze(text@),
            Extraction::Finished(Ok(features)) => ExtractionView::Finished(
                Ok(features.sentiment_analysis),
            ),
            Extraction::Finished(Err(e)) => ExtractionView::Finished(Err(e@)),
            Extraction::Nothing => ExtractionView::Nothing,
        }
    }
}

/// The failure that stands for an extraction that took too long.
pub open spec fn extraction_timeout() -> ErrorView {
    ErrorView { class: ErrorClass::Recoverable, reason: "FeatureExtractor timed out"@ }
}

/// The failure that stands for an analyzer that broke down.
pub open spec fn analyzer_breakdown() -> ErrorView {
    ErrorView {
        class: ErrorClass::Unrecoverable,
        reason: "An unexpected error occurred in sentiment analyzer"@,
    }
}

/// The failure with which an analyzer that broke down leaves its message.
pub fn analyzer_failure() -> (e: ErrorKind)
    ensures
        e@ == analyzer_breakdown(),
{
    ErrorKind::unrecoverable("An unexpected error occurred in sentiment analyzer")
}

/// Mathematical value of a [`FeatureExtractor`].
pub struct ExtractorView {
    /// Whether the deadline has passed.
    pub timed_out: bool,
    /// Whether features or a failure were handed on.
    pub settled: bool,
}

impl ExtractorView {
    /// What follows when the bytes `email` arrive, and the extractor after it.
    pub open spec fn started<A>(self, email: Seq<u8>) -> (ExtractionView<A>, ExtractorView) {
        if self.settled {
            (ExtractionView::Nothing, self)
        } else {
            match admitted(mail_reading(email)) {
                Ok(Some(body)) => (ExtractionView::Analyze(body), self),
                Ok(None) => (ExtractionView::Analyze(Seq::empty()), self),
                Err(e) => (
                    ExtractionView::Finished(Err(e)),
                    ExtractorView { settled: true, ..self },
                ),
            }
        }
    }

    /// What follows when the analysis arrives, and the extractor after it.
    pub open spec fn analyzed<A>(self, analysis: Result<A, ErrorView>) -> (
        ExtractionView<A>,
        ExtractorView,
    ) {
        if self.settled {
            (ExtractionView::Nothing, self)
        } else {
            (ExtractionView::Finished(analysis), ExtractorView { settled: true, ..self })
        }
    }

    /// What follows when the deadline passes, and the extractor after it.
    pub open spec fn expired<A>(self) -> (ExtractionView<A>, ExtractorView) {
        if self.settled {
            (ExtractionView::Nothing, self)
        } else {
            (
                ExtractionView::Finished(Err(extraction_timeout())),
                ExtractorView { timed_out: true, settled: true },
            )
        }
    }
}

/// Extracts the features of one message. It hands on one result: the
/// features, or the first failure, or the passing of its deadline, whichever
/// comes first; what comes after that is dropped.
#[derive(Debug)]
pub struct FeatureExtractor {
    parser: MailParser,
    timed_out: bool,
    settled: bool,
}

impl View for FeatureExtractor {
    type V = ExtractorView;

    closed spec fn view(&self) -> ExtractorView {
        ExtractorView { timed_out: self.timed_out, settled: self.settled }
    }
}

impl FeatureExtractor {
    /// The parser that this extractor uses.
    pub closed spec fn parser(&self) -> MailParser {
        self.parser
    }

    /// An extractor that has handed on nothing yet.
    pub fn new(parser: MailParser) -> (extractor: FeatureExtractor)
        ensures
            extractor@ == (ExtractorView { timed_out: false, settled: false }),
            extractor.parser() == parser,
    {
        FeatureExtractor { parser, timed_out: false, settled: false }
    }

    /// The time this extractor is given, in milliseconds.
    pub fn deadline_ms(&self) -> (ms: u64)
        ensures
            ms == EXTRACTION_DEADLINE_MS,
    {
        EXTRACTION_DEADLINE_MS
    }

    /// Whether a result was handed on.
    pub fn is_complete(&self) -> (b: bool)
        ensures
            b == self@.settled,
    {
        self.settled
    }

    /// Starts on the bytes of a message: they are parsed, and the text of
    /// the body is what is to be analyzed, the empty text where the body
    /// cannot be decoded. Bytes that do not parse end the extraction.
    pub fn extract<A>(&mut self, email: &[u8]) -> (step: Extraction<A>)
        ensures
            (step@, final(self)@) == old(self)@.started::<A>(email@),
    {
        if self.settled {
            return Extraction::Nothing;
        }
        match self.parser.parse(email) {
            Ok(message) => Extraction::Analyze(message.get_body()),
            Err(e) => {
                self.settled = true;
                Extraction::Finished(Err(e))
            },
        }
    }

    /// Takes the analysis of the text: with it the features are complete,
    /// and are handed on unless the extraction has ended before.
    pub fn set_sentiment<A>(&mut self, analysis: A) -> (step: Extraction<A>)
        ensures
            (step@, final(self)@) == old(self)@.analyzed(Ok::<A, ErrorView>(analysis)),
    {
        if self.settled {
            return Extraction::Nothing;
        }
        self.settled = true;
        Extraction::Finished(Ok(Features { sentiment_analysis: analysis }))
    }

    /// Takes the failure of the analysis, which ends the extraction.
    pub fn fail<A>(&mut self, e: ErrorKind) -> (step: Extraction<A>)
        ensures
            (step@, final(self)@) == old(self)@.analyzed(Err::<A, ErrorView>(e@)),
    {
        if self.settled {
            return Extraction::Nothing;
        }
        self.settled = true;
        Extraction::Finished(Err(e))
    }

    /// The deadline has passed: an extraction that has not ended yet ends
    /// with a transient failure.
    pub fn on_timeout<A>(&mut self) -> (step: Extraction<A>)
        ensures
            (step@, final(self)@) == old(self)@.expired::<A>(),
    {
        if self.settled {
            return Extraction::Nothing;
        }
        self.timed_out = true;
        self.settled = true;
        Extraction::Finished(Err(ErrorKind::recoverable("FeatureExtractor timed out")))
    }
}

/// Starts an extractor of its own for every message.
#[derive(Clone, Copy, Debug, PartialEq, Eq, Structural)]
pub struct FeatureExtractionManager {
    parser: MailParser,
}

impl FeatureExtractionManager {
    /// The parser that the extractors use.
    pub closed spec fn parser(&self) -> MailParser {
        self.parser
    }

    /// A manager whose extractors parse with `parser`.
    pub fn new(parser: MailParser) -> (manager: FeatureExtractionManager)
        ensures
            manager.parser() == parser,
    {
        FeatureExtractionManager { parser }
    }

    /// Starts the extraction of the features of `email`: a fresh extractor,
    /// and the first step it takes on the bytes.
    pub fn extract<A>(&self, email: &[u8]) -> (started: (FeatureExtractor, Extraction<A>))
        ensures
            (started.1@, started.0@) == (ExtractorView {
                timed_out: false,
                settled: false,
            }).started::<A>(email@),
    {
        let mut extractor = FeatureExtractor::new(self.parser);
        let step = extractor.extract(email);
        (extractor, step)
    }
}

/// An extraction hands on at most one result: once it has ended, whatever
/// arrives yields nothing and changes nothing.
pub proof fn lemma_ended_extraction_is_silent<A>(
    extractor: ExtractorView,
    email: Seq<u8>,
    analysis: Result<A, ErrorView>,
)
    requires
        extractor.settled,
    ensures
        extractor.started::<A>(email) == (ExtractionView::<A>::Nothing, extractor),
        extractor.analyzed(analysis) == (ExtractionView::<A>::Nothing, extractor),
        extractor.expired::<A>() == (ExtractionView::<A>::Nothing, extractor),
{
}

/// Every step that hands on a result ends the extraction.
pub proof fn lemma_result_ends_extraction<A>(
    extractor: ExtractorView,
    email: Seq<u8>,
    analysis: Result<A, ErrorView>,
)
    ensures
        extractor.started::<A>(email).0 is Finished ==> extractor.started::<A>(email).1.settled,
        extractor.analyzed(analysis).0 is Finished ==> extractor.analyzed(analysis).1.settled,
        extractor.expired::<A>().0 is Finished ==> extractor.expired::<A>().1.settled,
{
}

} // verus!
