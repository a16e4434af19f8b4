//! The spam detection service: takes one item through the pipeline, from
//! its bytes over the prediction cache, the feature extraction and the model
//! to the one result that its submitter gets.

use crate::cache::{
    bytes_view, lemma_get_after_put, lemma_skip_well_formed, lemma_touched_well_formed,
    lookup_step, store_step, touched, value_of, well_formed, BoundedCache,
};
use crate::digest::{content_hash, hash_email};
use crate::email_reader::{backoff, backoff_ms, gave_up, RETRY_CEILING};
use crate::errors::{outcome_view, ErrorKind, ErrorView};
use crate::files::{key_of_path, path_key};
use crate::model::{prediction_key, prediction_lookup, flag, PredictionCache};
use crate::state::{
    signal_of, CompletionHandler, CompletionStatus, HandlerView, Signal, StatusView,
    DEFAULT_DEADLINE_MS,
};
use vstd::bytes::{
    lemma_auto_spec_u64_to_from_le_bytes, spec_u64_from_le_bytes, spec_u64_to_le_bytes,
    u64_from_le_bytes, u64_to_le_bytes,
};
use vstd::prelude::*;
use vstd::string::*;

verus! {

/// Seconds for which the retries of a path are remembered.
pub const COUNTER_TTL_SECS: u32 = 120;

/// Number of paths whose retries are remembered.
pub const COUNTER_CAPACITY: usize = 10000;

/// Where an item stands in the pipeline.
#[derive(Clone, Copy, Debug, PartialEq, Eq, Structural)]
pub enum Stage {
    /// Its bytes were asked for.
    IssueWork,
    /// Its features are being extracted.
    Extract,
    /// The model is predicting from its features.
    Predict,
    /// Its submitter has the result.
    Done,
}

/// What the service asks of its surroundings for an item. A request carries
/// the number of the attempt it is made for, and what comes of it is to be
/// handed back under that number.
#[derive(Debug)]
pub enum Action<F> {
    /// Submit this path to the work queue, so that its bytes are read.
    IssueWork { path: String, attempt: u64 },
    /// Wait `delay_ms` milliseconds, then queue this path again with `tries`
    /// attempts counted, so that its bytes are read once more.
    Resubmit { path: String, attempt: u64, tries: usize, delay_ms: u64 },
    /// Have the features of these bytes extracted.
    Extract { email: Vec<u8>, attempt: u64 },
    /// Have the model predict from these features.
    Predict { features: F, attempt: u64 },
    /// Hand this result to the submitter who holds the ticket `sink`.
    Finalize { sink: u64, result: Result<bool, ErrorKind> },
    /// Nothing: what arrived was dropped.
    Nothing,
}

/// Mathematical value of an [`Action`].
pub enum ActionView<F> {
    IssueWork { path: Seq<char>, attempt: u64 },
    Resubmit { path: Seq<char>, attempt: u64, tries: nat, delay_ms: nat },
    Extract { email: Seq<u8>, attempt: u64 },
    Predict { features: F, attempt: u64 },
    Finalize { sink: u64, result: Result<bool, ErrorView> },
    Nothing,
}

impl<F> View for Action<F> {
    type V = ActionView<F>;

    open spec fn view(&self) -> ActionView<F> {
        match self {
            Action::IssueWork { path, attempt } => ActionView::IssueWork {
                path: path@,
                attempt: *attempt,
            },
            Action::Resubmit { path, attempt, tries, delay_ms } => ActionView::Resubmit {
                path: path@,
                attempt: *attempt,
                tries: *tries as nat,
                delay_ms: *delay_ms as nat,
            },
            Action::Extract { email, attempt } => ActionView::Extract {
                email: email@,
                attempt: *attempt,
            },
            Action::Predict { features, attempt } => ActionView::Predict {
                features: *features,
                attempt: *attempt,
            },
            Action::Finalize { sink, result } => ActionView::Finalize {
                sink: *sink,
                result: outcome_view(*result),
            },
            Action::Nothing => ActionView::Nothing,
        }
    }
}

/// What can arrive for an item.
pub enum Arrival<F> {
    /// The bytes of the item, or the failure to read them.
    Bytes(Result<Seq<u8>, ErrorView>),
    /// The features of the item, or the failure to extract them.
    Features(Result<F, ErrorView>),
    /// The answer of the model, or its failure.
    Answer(Result<bool, ErrorView>),
    /// The passing of the deadline of the attempt.
    Timeout,
}

/// An arrival for the attempt `attempt` of an item, together with the
/// answers that the caches give while it is handled: `cached` is what the
/// prediction cache holds for the bytes, and `count` what the retries of the
/// path come to.
pub struct Event<F> {
    pub attempt: u64,
    pub arrival: Arrival<F>,
    pub cached: Option<bool>,
    pub count: u64,
}

/// The event that `arrival` makes for the attempt `attempt`, with the
/// answers of the caches.
pub open spec fn event_of<F>(attempt: u64, arrival: Arrival<F>, cached: Option<bool>, count: u64) -> Event<
    F,
> {
    Event { attempt, arrival, cached, count }
}

/// Mathematical value of a [`Job`].
pub struct JobView {
    /// The path of the item.
    pub path: Seq<char>,
    /// The ticket of its submitter.
    pub sink: u64,
    /// Where the item stands.
    pub stage: Stage,
    /// The content hash of its bytes, once they have arrived.
    pub hash: Seq<u8>,
    /// The number of the attempt that is under way.
    pub attempt: u64,
    /// The supervisor of the attempt that is under way.
    pub handler: HandlerView,
}

/// A supervisor for an attempt that follows `tries` others and is given
/// `deadline_ms` milliseconds.
pub open spec fn fresh(tries: nat, deadline_ms: nat) -> HandlerView {
    HandlerView { tries, deadline_ms, settled: false }
}

/// The number of the attempt that follows attempt `attempt`.
pub open spec fn next_attempt(attempt: u64) -> u64 {
    if attempt == u64::MAX {
        0
    } else {
        (attempt + 1) as u64
    }
}

impl JobView {
    /// The item as it is submitted, where each of its attempts is given
    /// `deadline_ms` milliseconds.
    pub open spec fn submitted(path: Seq<char>, sink: u64, deadline_ms: nat) -> JobView {
        JobView {
            path,
            sink,
            stage: Stage::IssueWork,
            hash: Seq::empty(),
            attempt: 0,
            handler: fresh(0, deadline_ms),
        }
    }

    /// The attempt that is under way has a supervisor that can still count,
    /// and the supervisor is pending exactly while the item is not done.
    pub open spec fn wf(self) -> bool {
        &&& self.handler.tries < usize::MAX
        &&& self.handler.settled <==> self.stage == Stage::Done
    }

    /// The item with its result handed out.
    pub open spec fn finished(self) -> JobView {
        JobView { stage: Stage::Done, handler: self.handler.settle(), ..self }
    }

    /// What follows when the bytes `email` have arrived for the item, with
    /// content hash `hash`, and the prediction cache has answered `cached`.
    /// A cached prediction is the result; without one the features are
    /// extracted.
    pub open spec fn routed<F>(self, email: Seq<u8>, hash: Seq<u8>, cached: Option<bool>) -> (
        ActionView<F>,
        JobView,
    ) {
        if self.stage != Stage::IssueWork {
            (ActionView::Nothing, self)
        } else {
            match cached {
                Some(prediction) => (
                    ActionView::Finalize { sink: self.sink, result: Ok(prediction) },
                    JobView { hash, ..self.finished() },
                ),
                None => (
                    ActionView::Extract { email, attempt: self.attempt },
                    JobView { stage: Stage::Extract, hash, ..self },
                ),
            }
        }
    }

    /// What follows when the path has failed transiently for the `count`-th
    /// time: after a pause that doubles with each failure the path is queued
    /// again for another attempt, with a number and a supervisor of its own
    /// that carries the count and has the deadline of the one before, unless
    /// that makes more than [`RETRY_CEILING`] failures; then the item ends
    /// with a failure of its own.
    pub open spec fn retried<F>(self, count: u64) -> (ActionView<F>, JobView) {
        if self.stage == Stage::Done {
            (ActionView::Nothing, self)
        } else if count > RETRY_CEILING {
            (
                ActionView::Finalize { sink: self.sink, result: Err(gave_up(self.path)) },
                self.finished(),
            )
        } else {
            (
                ActionView::Resubmit {
                    path: self.path,
                    attempt: next_attempt(self.attempt),
                    tries: count as nat,
                    delay_ms: backoff(count as nat),
                },
                JobView {
                    stage: Stage::IssueWork,
                    attempt: next_attempt(self.attempt),
                    handler: fresh(count as nat, self.handler.deadline_ms),
                    ..self
                },
            )
        }
    }

    /// Whether `signal`, arriving now, makes the item count one more retry
    /// of its path.
    pub open spec fn counts_retry(self, signal: Signal) -> bool {
        self.stage != Stage::Done && self.handler.status_for(signal) is Retry
    }

    /// What follows when the attempt under way ends as `signal` says, where
    /// `count` is the number of retries that the path has then come to. An
    /// abort ends the item with its cause; a retry is taken up as
    /// [`JobView::retried`] says.
    pub open spec fn failed<F>(self, signal: Signal, count: u64) -> (ActionView<F>, JobView) {
        if self.stage == Stage::Done {
            (ActionView::Nothing, self)
        } else {
            match self.handler.status_for(signal) {
                StatusView::Abort(cause) => (
                    ActionView::Finalize { sink: self.sink, result: Err(cause) },
                    self.finished(),
                ),
                StatusView::Retry(_, _) => self.retried(count),
                StatusView::Success => (ActionView::Nothing, self),
            }
        }
    }

    /// Whether the item takes `arrival` up when it arrives for the attempt
    /// `attempt`: the item is not done, the attempt is the one under way, and
    /// the arrival is what the item waits for. The passing of the deadline
    /// fits every stage.
    pub open spec fn awaits<F>(self, attempt: u64, arrival: Arrival<F>) -> bool {
        &&& self.stage != Stage::Done
        &&& attempt == self.attempt
        &&& match arrival {
            Arrival::Bytes(_) => self.stage == Stage::IssueWork,
            Arrival::Features(_) => self.stage == Stage::Extract,
            Arrival::Answer(_) => self.stage == Stage::Predict,
            Arrival::Timeout => true,
        }
    }

    /// The failure that `arrival` brings, as the signal that its supervisor
    /// gets; none where it brings what was asked for.
    pub open spec fn failure_of<F>(arrival: Arrival<F>) -> Option<Signal> {
        match arrival {
            Arrival::Bytes(Err(e)) => Some(signal_of(Err(e))),
            Arrival::Features(Err(e)) => Some(signal_of(Err(e))),
            Arrival::Answer(Err(e)) => Some(signal_of(Err(e))),
            Arrival::Timeout => Some(Signal::Timeout),
            _ => None,
        }
    }

    /// What follows `event`, and the item after it. What the item does not
    /// await is dropped. Bytes are routed by the prediction cache; features
    /// go to the model; a prediction is the result; and a failure or the
    /// passing of the deadline is ruled on by the supervisor.
    pub open spec fn step<F>(self, event: Event<F>) -> (ActionView<F>, JobView) {
        if !self.awaits(event.attempt, event.arrival) {
            (ActionView::Nothing, self)
        } else {
            match event.arrival {
                Arrival::Bytes(Ok(bytes)) => self.routed(bytes, content_hash(bytes), event.cached),
                Arrival::Features(Ok(features)) => (
                    ActionView::Predict { features, attempt: self.attempt },
                    JobView { stage: Stage::Predict, ..self },
                ),
                Arrival::Answer(Ok(prediction)) => (
                    ActionView::Finalize { sink: self.sink, result: Ok(prediction) },
                    self.finished(),
                ),
                Arrival::Bytes(Err(e)) => self.failed(signal_of(Err(e)), event.count),
                Arrival::Features(Err(e)) => self.failed(signal_of(Err(e)), event.count),
                Arrival::Answer(Err(e)) => self.failed(signal_of(Err(e)), event.count),
                Arrival::Timeout => self.failed(Signal::Timeout, event.count),
            }
        }
    }

    /// The item after `events`, one after the other.
    pub open spec fn after<F>(self, events: Seq<Event<F>>) -> JobView
        decreases events.len(),
    {
        if events.len() == 0 {
            self
        } else {
            self.step(events[0]).1.after(events.drop_first())
        }
    }

    /// The results that the submitter is handed while `events` arrive.
    pub open spec fn results<F>(self, events: Seq<Event<F>>) -> Seq<Result<bool, ErrorView>>
        decreases events.len(),
    {
        if events.len() == 0 {
            Seq::empty()
        } else {
            let (action, next) = self.step(events[0]);
            let rest = next.results(events.drop_first());
            match action {
                ActionView::Finalize { sink, result } => seq![result] + rest,
                _ => rest,
            }
        }
    }
}

/// One item on its way through the pipeline.
#[derive(Debug)]
pub struct Job {
    path: String,
    sink: u64,
    stage: Stage,
    hash: Vec<u8>,
    attempt: u64,
    handler: CompletionHandler,
}

impl View for Job {
    type V = JobView;

    closed spec fn view(&self) -> JobView {
        JobView {
            path: self.path@,
            sink: self.sink,
            stage: self.stage,
            hash: self.hash@,
            attempt: self.attempt,
            handler: self.handler@,
        }
    }
}

impl Job {
    /// Where the item stands.
    pub fn stage(&self) -> (stage: Stage)
        ensures
            stage == self@.stage,
    {
        self.stage
    }

    /// The ticket of the submitter.
    pub fn sink(&self) -> (sink: u64)
        ensures
            sink == self@.sink,
    {
        self.sink
    }

    /// The number of the attempt that is under way.
    pub fn attempt(&self) -> (attempt: u64)
        ensures
            attempt == self@.attempt,
    {
        self.attempt
    }

    /// The number of attempts that the supervisor of the attempt under way
    /// carries.
    pub fn tries(&self) -> (tries: usize)
        ensures
            tries == self@.handler.tries,
    {
        self.handler.tries()
    }

    /// The time that the attempt under way is given, in milliseconds.
    pub fn deadline_ms(&self) -> (ms: u64)
        ensures
            ms == self@.handler.deadline_ms,
    {
        self.handler.deadline_ms()
    }

    /// Marks the item as done.
    fn finish(&mut self)
        requires
            old(self)@.wf(),
            old(self)@.stage != Stage::Done,
        ensures
            final(self)@ == old(self)@.finished(),
            final(self)@.wf(),
    {
        let _ = self.handler.success();
        self.stage = Stage::Done;
    }

    /// Decides what follows the arrival of the bytes of the item, given
    /// their content hash and the answer of the prediction cache.
    pub fn route<F>(&mut self, email: Vec<u8>, hash: Vec<u8>, cached: Option<bool>) -> (action:
        Action<F>)
        requires
            old(self)@.wf(),
        ensures
            final(self)@.wf(),
            (action@, final(self)@) == old(self)@.routed::<F>(email@, hash@, cached),
    {
        if self.stage != Stage::IssueWork {
            return Action::Nothing;
        }
        self.hash = hash;
        match cached {
            Some(prediction) => {
                self.finish();
                Action::Finalize { sink: self.sink, result: Ok(prediction) }
            },
            None => {
                self.stage = Stage::Extract;
                Action::Extract { email, attempt: self.attempt }
            },
        }
    }

    /// Decides what follows the `count`-th transient failure of the path.
    pub fn retry_after<F>(&mut self, count: u64) -> (action: Action<F>)
        requires
            old(self)@.wf(),
        ensures
            final(self)@.wf(),
            (action@, final(self)@) == old(self)@.retried::<F>(count),
    {
        if self.stage == Stage::Done {
            return Action::Nothing;
        }
        if count > RETRY_CEILING as u64 {
            let reason = String::from_str("Repeatedly failed to predict for path ").concat(
                self.path.as_str(),
            );
            self.finish();
            Action::Finalize { sink: self.sink, result: Err(ErrorKind::Msg(reason)) }
        } else {
            self.handler = CompletionHandler::with_deadline(
                count as usize,
                self.handler.deadline_ms(),
            );
            self.stage = Stage::IssueWork;
            self.attempt = if self.attempt == u64::MAX {
                0
            } else {
                self.attempt + 1
            };
            Action::Resubmit {
                path: self.path.clone(),
                attempt: self.attempt,
                tries: count as usize,
                delay_ms: backoff_ms(count as usize),
            }
        }
    }
}

/// The number of retries that stored bytes stand for: none, where nothing
/// is stored or what is stored is no count.
pub open spec fn count_of(stored: Option<Seq<u8>>) -> u64 {
    match stored {
        Some(bytes) => if bytes.len() == 8 {
            spec_u64_from_le_bytes(bytes)
        } else {
            0
        },
        None => 0,
    }
}

/// The count that follows `count`.
pub open spec fn next_count(count: u64) -> u64 {
    if count == u64::MAX {
        count
    } else {
        (count + 1) as u64
    }
}

/// The retries of the path keyed `key` are counted up to `count`, which
/// takes the counters from `before` to `after`: the count that is found, or
/// none, is incremented and stored again.
pub open spec fn counter_step(
    before: Seq<(Seq<u8>, Seq<u8>)>,
    key: Seq<u8>,
    count: u64,
    capacity: nat,
    after: Seq<(Seq<u8>, Seq<u8>)>,
) -> bool {
    exists|stored: Option<Seq<u8>>, between: Seq<(Seq<u8>, Seq<u8>)>|
        {
            &&& #[trigger] lookup_step(before, key, stored, between)
            &&& count == next_count(count_of(stored))
            &&& if capacity == 0 {
                after == between
            } else {
                store_step(between, key, spec_u64_to_le_bytes(count), capacity, after)
            }
        }
}

/// Mathematical value of a [`SpamDetectionService`].
pub struct ServiceView {
    /// The cached predictions, least recently used first.
    pub predictions: Seq<(Seq<u8>, Seq<u8>)>,
    /// The number of predictions that are kept.
    pub prediction_capacity: nat,
    /// The retry counters by path, least recently used first.
    pub counters: Seq<(Seq<u8>, Seq<u8>)>,
    /// The number of counters that are kept.
    pub counter_capacity: nat,
    /// Seconds for which a prediction stays cached.
    pub prediction_ttl_secs: nat,
    /// Seconds for which the retries of a path are remembered.
    pub counter_ttl_secs: nat,
    /// The time that each attempt is given, in milliseconds.
    pub deadline_ms: nat,
}

impl ServiceView {
    /// The retries of the path of `job` are counted up to `count`, which
    /// takes the service from `self` to `after`.
    pub open spec fn count_step(self, job: JobView, count: u64, after: ServiceView) -> bool {
        &&& after == ServiceView { counters: after.counters, ..self }
        &&& counter_step(
            self.counters,
            path_key(job.path),
            count,
            self.counter_capacity,
            after.counters,
        )
    }

    /// The service moves from `self` to `after` while an attempt of `job`
    /// ends as `signal` says: the retries of the path are counted up to
    /// `count` where the signal asks for a retry, and nothing changes where
    /// it does not.
    pub open spec fn failure_step(self, job: JobView, signal: Signal, count: u64, after: ServiceView) -> bool {
        if job.counts_retry(signal) {
            self.count_step(job, count, after)
        } else {
            after == self
        }
    }

    /// `prediction` is cached for `hash`, which takes the service from
    /// `self` to `after`.
    pub open spec fn remember_step(self, hash: Seq<u8>, prediction: bool, after: ServiceView) -> bool {
        &&& after == ServiceView { predictions: after.predictions, ..self }
        &&& if self.prediction_capacity == 0 {
            after.predictions == self.predictions
        } else {
            store_step(
                self.predictions,
                prediction_key(hash),
                flag(prediction),
                self.prediction_capacity,
                after.predictions,
            )
        }
    }

    /// The prediction cache is asked for the bytes `email` and answers
    /// `cached`, which takes the service from `self` to `after`.
    pub open spec fn lookup(self, email: Seq<u8>, cached: Option<bool>, after: ServiceView) -> bool {
        &&& after == ServiceView { predictions: after.predictions, ..self }
        &&& prediction_lookup(self.predictions, content_hash(email), cached, after.predictions)
    }

    /// The service moves from `self` to `after` while `job` takes `event`:
    /// bytes are looked up in the prediction cache, a prediction is cached,
    /// a retry is counted, and nothing else touches the caches.
    pub open spec fn serves<F>(self, job: JobView, event: Event<F>, after: ServiceView) -> bool {
        if !job.awaits(event.attempt, event.arrival) {
            after == self
        } else {
            match event.arrival {
                Arrival::Bytes(Ok(bytes)) => self.lookup(bytes, event.cached, after),
                Arrival::Features(Ok(_)) => after == self,
                Arrival::Answer(Ok(prediction)) => self.remember_step(
                    job.hash,
                    prediction,
                    after,
                ),
                _ => self.failure_step(
                    job,
                    JobView::failure_of(event.arrival)->0,
                    event.count,
                    after,
                ),
            }
        }
    }
}

/// The service that owns the prediction cache and the retry counters.
pub struct SpamDetectionService {
    prediction_cache: PredictionCache,
    tries: BoundedCache,
    deadline_ms: u64,
}

impl View for SpamDetectionService {
    type V = ServiceView;

    closed spec fn view(&self) -> ServiceView {
        ServiceView {
            predictions: self.prediction_cache@,
            prediction_capacity: self.prediction_cache.capacity(),
            counters: self.tries@,
            counter_capacity: self.tries.capacity(),
            prediction_ttl_secs: self.prediction_cache.ttl_secs(),
            counter_ttl_secs: self.tries.ttl_secs(),
            deadline_ms: self.deadline_ms as nat,
        }
    }
}

/// The view of the bytes of an item or the failure to read them.
pub open spec fn bytes_arrival<F>(email: Result<Vec<u8>, ErrorKind>) -> Arrival<F> {
    match email {
        Ok(bytes) => Arrival::Bytes(Ok(bytes@)),
        Err(e) => Arrival::Bytes(Err(e@)),
    }
}

/// The view of the features of an item or the failure to extract them.
pub open spec fn features_arrival<F>(features: Result<F, ErrorKind>) -> Arrival<F> {
    match features {
        Ok(features) => Arrival::Features(Ok(features)),
        Err(e) => Arrival::Features(Err(e@)),
    }
}

impl SpamDetectionService {
    /// Both caches are in order.
    pub closed spec fn wf(&self) -> bool {
        &&& self.prediction_cache.wf()
        &&& self.tries.wf()
    }

    /// What a well-formed service is known to satisfy.
    pub proof fn lemma_wf(&self)
        requires
            self.wf(),
        ensures
            well_formed(self@.predictions, self@.prediction_capacity),
            well_formed(self@.counters, self@.counter_capacity),
    {
        self.prediction_cache.lemma_wf();
        self.tries.lemma_wf();
    }

    /// A service around `prediction_cache` that has counted no retry and
    /// gives each attempt the default deadline.
    pub fn new(prediction_cache: PredictionCache) -> (service: SpamDetectionService)
        requires
            prediction_cache.wf(),
        ensures
            service.wf(),
            service@ == (ServiceView {
                predictions: prediction_cache@,
                prediction_capacity: prediction_cache.capacity(),
                counters: Seq::empty(),
                counter_capacity: COUNTER_CAPACITY as nat,
                prediction_ttl_secs: prediction_cache.ttl_secs(),
                counter_ttl_secs: COUNTER_TTL_SECS as nat,
                deadline_ms: DEFAULT_DEADLINE_MS as nat,
            }),
    {
        SpamDetectionService {
            prediction_cache,
            tries: BoundedCache::new(COUNTER_TTL_SECS, COUNTER_CAPACITY),
            deadline_ms: DEFAULT_DEADLINE_MS,
        }
    }

    /// A service around `prediction_cache` that has counted no retry and
    /// gives each attempt `deadline_ms` milliseconds.
    pub fn with_deadline(prediction_cache: PredictionCache, deadline_ms: u64) -> (service:
        SpamDetectionService)
        requires
            prediction_cache.wf(),
        ensures
            service.wf(),
            service@ == (ServiceView {
                predictions: prediction_cache@,
                prediction_capacity: prediction_cache.capacity(),
                counters: Seq::empty(),
                counter_capacity: COUNTER_CAPACITY as nat,
                prediction_ttl_secs: prediction_cache.ttl_secs(),
                counter_ttl_secs: COUNTER_TTL_SECS as nat,
                deadline_ms: deadline_ms as nat,
            }),
    {
        SpamDetectionService {
            prediction_cache,
            tries: BoundedCache::new(COUNTER_TTL_SECS, COUNTER_CAPACITY),
            deadline_ms,
        }
    }

    /// Takes up the item `path` for the submitter who holds the ticket
    /// `sink`: the bytes of the path are asked for, under a supervisor that
    /// has seen no attempt yet.
    pub fn predict_with_cache<F>(&self, path: String, sink: u64) -> (started: (Job, Action<F>))
        ensures
            started.0@ == JobView::submitted(path@, sink, self@.deadline_ms),
            started.0@.wf(),
            started.1@ == (ActionView::<F>::IssueWork { path: path@, attempt: 0 }),
    {
        let asked = path.clone();
        let job = Job {
            path,
            sink,
            stage: Stage::IssueWork,
            hash: Vec::new(),
            attempt: 0,
            handler: CompletionHandler::with_deadline(0, self.deadline_ms),
        };
        (job, Action::IssueWork { path: asked, attempt: 0 })
    }

    /// The count that follows the one which the stored bytes stand for.
    pub fn count_after(stored: Option<Vec<u8>>) -> (count: u64)
        ensures
            count == next_count(count_of(bytes_view(stored))),
    {
        let found = match stored {
            Some(bytes) => {
                if bytes.len() == 8 {
                    u64_from_le_bytes(bytes.as_slice())
                } else {
                    0
                }
            },
            None => 0,
        };
        if found == u64::MAX {
            found
        } else {
            found + 1
        }
    }

    /// Counts one more retry of `path`, and returns what the count has come
    /// to.
    fn count_retry(&mut self, path: &str) -> (count: u64)
        requires
            old(self).wf(),
        ensures
            final(self).wf(),
            final(self)@ == (ServiceView { counters: final(self)@.counters, ..old(self)@ }),
            counter_step(
                old(self)@.counters,
                path_key(path@),
                count,
                old(self)@.counter_capacity,
                final(self)@.counters,
            ),
    {
        let key = key_of_path(path);
        let stored = self.tries.get(&key);
        let ghost between = self.tries@;
        let count = Self::count_after(stored);
        self.tries.put(key, u64_to_le_bytes(count));
        proof {
            assert(lookup_step(old(self)@.counters, path_key(path@), bytes_view(stored), between));
        }
        count
    }

    /// Takes the item up again after a transient failure: the retries of
    /// its path are counted, and with more than [`RETRY_CEILING`] of them the
    /// item ends with a failure of its own instead of another attempt. An
    /// item that is done is left alone.
    pub fn retry_prediction<F>(&mut self, job: &mut Job) -> (action: Action<F>)
        requires
            old(self).wf(),
            old(job)@.wf(),
        ensures
            final(self).wf(),
            final(job)@.wf(),
            old(job)@.stage == Stage::Done ==> final(self)@ == old(self)@ && action@
                == ActionView::<F>::Nothing && final(job)@ == old(job)@,
            old(job)@.stage != Stage::Done ==> exists|count: u64|
                {
                    &&& #[trigger] old(job)@.retried::<F>(count) == (action@, final(job)@)
                    &&& old(self)@.count_step(old(job)@, count, final(self)@)
                },
    {
        if job.stage == Stage::Done {
            return Action::Nothing;
        }
        let count = self.count_retry(job.path.as_str());
        let action = job.retry_after(count);
        assert(old(job)@.retried::<F>(count) == (action@, job@));
        action
    }

    /// Ends the attempt under way as the supervisor rules on `cause`, the
    /// failure of the attempt, or on the passing of its deadline where there
    /// is no cause.
    fn fail<F>(&mut self, job: &mut Job, cause: Option<ErrorKind>) -> (action: Action<F>)
        requires
            old(self).wf(),
            old(job)@.wf(),
            old(job)@.stage != Stage::Done,
        ensures
            final(self).wf(),
            final(job)@.wf(),
            exists|count: u64|
                {
                    &&& #[trigger] old(job)@.failed::<F>(failure_signal(cause), count) == (
                        action@,
                        final(job)@,
                    )
                    &&& old(self)@.failure_step(
                        old(job)@,
                        failure_signal(cause),
                        count,
                        final(self)@,
                    )
                },
    {
        let ghost signal = failure_signal(cause);
        let tries = job.handler.tries();
        let deadline_ms = job.handler.deadline_ms();
        let status = match cause {
            Some(e) => job.handler.report(Err(e)),
            None => job.handler.on_timeout(),
        };
        match status {
            Some(CompletionStatus::Abort(cause)) => {
                job.stage = Stage::Done;
                let action = Action::Finalize { sink: job.sink, result: Err(cause) };
                assert(old(job)@.failed::<F>(signal, 0) == (action@, job@));
                action
            },
            Some(CompletionStatus::Retry(_, _)) => {
                let count = self.count_retry(job.path.as_str());
                job.handler = CompletionHandler::with_deadline(tries, deadline_ms);
                let action = job.retry_after(count);
                assert(old(job)@.failed::<F>(signal, count) == (action@, job@));
                action
            },
            _ => {
                assert(false);
                Action::Nothing
            },
        }
    }

    /// Takes the bytes of the item, or the failure to read them, for the
    /// attempt `attempt`. The bytes are hashed and the prediction cache is
    /// asked: a cached prediction is the result, and nothing more is done for
    /// the item; without one the features are to be extracted. A failure is
    /// ruled on by the supervisor.
    pub fn issue_work<F>(
        &mut self,
        job: &mut Job,
        attempt: u64,
        email: Result<Vec<u8>, ErrorKind>,
    ) -> (action: Action<F>)
        requires
            old(self).wf(),
            old(job)@.wf(),
        ensures
            final(self).wf(),
            final(job)@.wf(),
            exists|cached: Option<bool>, count: u64|
                {
                    &&& #[trigger] old(job)@.step(
                        event_of(attempt, bytes_arrival::<F>(email), cached, count),
                    ) == (action@, final(job)@)
                    &&& old(self)@.serves(
                        old(job)@,
                        event_of(attempt, bytes_arrival::<F>(email), cached, count),
                        final(self)@,
                    )
                },
    {
        let ghost arrival = bytes_arrival::<F>(email);
        if job.stage != Stage::IssueWork || attempt != job.attempt {
            proof {
                let event = event_of(attempt, arrival, None, 0);
                assert(old(job)@.step(event) == (ActionView::<F>::Nothing, job@));
            }
            return Action::Nothing;
        }
        match email {
            Ok(bytes) => {
                let hash = hash_email(bytes.as_slice());
                let cached = self.prediction_cache.get(hash.clone());
                let action = job.route(bytes, hash, cached);
                proof {
                    let event = event_of(attempt, arrival, cached, 0);
                    assert(old(job)@.step(event) == (action@, job@));
                    assert(old(self)@.serves(old(job)@, event, self@));
                }
                action
            },
            Err(e) => {
                let ghost signal = signal_of(Err::<bool, ErrorView>(e@));
                let action = self.fail(job, Some(e));
                proof {
                    lemma_failure_is_a_step(
                        old(job)@,
                        old(self)@,
                        attempt,
                        arrival,
                        signal,
                        action@,
                        job@,
                        self@,
                    );
                }
                action
            },
        }
    }

    /// Takes the features of the item for the attempt `attempt`, which go
    /// to the model, or the failure of their extraction, which is ruled on by
    /// the supervisor.
    pub fn predict<F>(&mut self, job: &mut Job, attempt: u64, features: Result<F, ErrorKind>) -> (action:
        Action<F>)
        requires
            old(self).wf(),
            old(job)@.wf(),
        ensures
            final(self).wf(),
            final(job)@.wf(),
            exists|count: u64|
                {
                    &&& #[trigger] old(job)@.step(
                        event_of(attempt, features_arrival(features), None, count),
                    ) == (action@, final(job)@)
                    &&& old(self)@.serves(
                        old(job)@,
                        event_of(attempt, features_arrival(features), None, count),
                        final(self)@,
                    )
                },
    {
        let ghost arrival = features_arrival(features);
        if job.stage != Stage::Extract || attempt != job.attempt {
            proof {
                let event = event_of(attempt, arrival, None, 0);
                assert(old(job)@.step(event) == (ActionView::<F>::Nothing, job@));
            }
            return Action::Nothing;
        }
        match features {
            Ok(features) => {
                job.stage = Stage::Predict;
                let action = Action::Predict { features, attempt };
                proof {
                    let event = event_of(attempt, arrival, None, 0);
                    assert(old(job)@.step(event) == (action@, job@));
                }
                action
            },
            Err(e) => {
                let ghost signal = signal_of(Err::<bool, ErrorView>(e@));
                let action = self.fail(job, Some(e));
                proof {
                    lemma_failure_is_a_step(
                        old(job)@,
                        old(self)@,
                        attempt,
                        arrival,
                        signal,
                        action@,
                        job@,
                        self@,
                    );
                }
                action
            },
        }
    }

    /// Takes the answer of the model for the attempt `attempt`. A
    /// prediction is cached under the content hash of the item and is its
    /// result; a failure is ruled on by the supervisor.
    pub fn complete<F>(&mut self, job: &mut Job, attempt: u64, outcome: Result<bool, ErrorKind>) -> (action:
        Action<F>)
        requires
            old(self).wf(),
            old(job)@.wf(),
        ensures
            final(self).wf(),
            final(job)@.wf(),
            exists|count: u64|
                {
                    &&& #[trigger] old(job)@.step(
                        event_of(attempt, Arrival::<F>::Answer(outcome_view(outcome)), None, count),
                    ) == (action@, final(job)@)
                    &&& old(self)@.serves(
                        old(job)@,
                        event_of(attempt, Arrival::<F>::Answer(outcome_view(outcome)), None, count),
                        final(self)@,
                    )
                },
    {
        let ghost arrival = Arrival::<F>::Answer(outcome_view(outcome));
        if job.stage != Stage::Predict || attempt != job.attempt {
            proof {
                let event = event_of(attempt, arrival, None, 0);
                assert(old(job)@.step(event) == (ActionView::<F>::Nothing, job@));
            }
            return Action::Nothing;
        }
        match outcome {
            Ok(prediction) => {
                self.prediction_cache.set(job.hash.clone(), prediction);
                job.finish();
                let action = Action::Finalize { sink: job.sink, result: Ok(prediction) };
                proof {
                    let event = event_of(attempt, arrival, None, 0);
                    assert(old(job)@.step(event) == (action@, job@));
                    assert(old(self)@.serves(old(job)@, event, self@));
                }
                action
            },
            Err(e) => {
                let ghost signal = signal_of(Err::<bool, ErrorView>(e@));
                let action = self.fail(job, Some(e));
                proof {
                    lemma_failure_is_a_step(
                        old(job)@,
                        old(self)@,
                        attempt,
                        arrival,
                        signal,
                        action@,
                        job@,
                        self@,
                    );
                }
                action
            },
        }
    }

    /// The deadline of the attempt `attempt` has passed: if that attempt is
    /// still under way, its supervisor makes a retry of it, as for a
    /// transient failure.
    pub fn on_timeout<F>(&mut self, job: &mut Job, attempt: u64) -> (action: Action<F>)
        requires
            old(self).wf(),
            old(job)@.wf(),
        ensures
            final(self).wf(),
            final(job)@.wf(),
            exists|count: u64|
                {
                    &&& #[trigger] old(job)@.step(
                        event_of(attempt, Arrival::<F>::Timeout, None, count),
                    ) == (action@, final(job)@)
                    &&& old(self)@.serves(
                        old(job)@,
                        event_of(attempt, Arrival::<F>::Timeout, None, count),
                        final(self)@,
                    )
                },
    {
        if job.stage == Stage::Done || attempt != job.attempt {
            proof {
                let event = event_of(attempt, Arrival::<F>::Timeout, None, 0);
                assert(old(job)@.step(event) == (ActionView::<F>::Nothing, job@));
            }
            return Action::Nothing;
        }
        let action = self.fail(job, None);
        proof {
            lemma_failure_is_a_step(
                old(job)@,
                old(self)@,
                attempt,
                Arrival::<F>::Timeout,
                Signal::Timeout,
                action@,
                job@,
                self@,
            );
        }
        action
    }
}

/// The signal that the end of an attempt amounts to: the ruling on its
/// failure, or the passing of the deadline where there is no failure.
pub open spec fn failure_signal(cause: Option<ErrorKind>) -> Signal {
    match cause {
        Some(e) => signal_of(Err(e@)),
        None => Signal::Timeout,
    }
}

/// The end of an attempt that the supervisor has ruled on is the step that
/// the failure makes, for the count that the retries of the path came to.
pub proof fn lemma_failure_is_a_step<F>(
    job: JobView,
    service: ServiceView,
    attempt: u64,
    arrival: Arrival<F>,
    signal: Signal,
    action: ActionView<F>,
    job_after: JobView,
    service_after: ServiceView,
)
    requires
        job.awaits(attempt, arrival),
        JobView::failure_of(arrival) == Some(signal),
        exists|count: u64|
            {
                &&& #[trigger] job.failed::<F>(signal, count) == (action, job_after)
                &&& service.failure_step(job, signal, count, service_after)
            },
    ensures
        exists|count: u64|
            {
                &&& #[trigger] job.step(event_of(attempt, arrival, None, count)) == (
                    action,
                    job_after,
                )
                &&& service.serves(job, event_of(attempt, arrival, None, count), service_after)
            },
{
    let count = choose|count: u64|
        {
            &&& #[trigger] job.failed::<F>(signal, count) == (action, job_after)
            &&& service.failure_step(job, signal, count, service_after)
        };
    let event = event_of(attempt, arrival, None, count);
    assert(job.step(event) == (action, job_after));
    assert(service.serves(job, event, service_after));
}

/// A step keeps an item in order, hands out a result exactly when it ends
/// the item, and hands it to the submitter of the item.
pub proof fn lemma_step<F>(job: JobView, event: Event<F>)
    requires
        job.wf(),
    ensures
        job.step(event).1.wf(),
        job.step(event).1.path == job.path,
        job.step(event).1.sink == job.sink,
        job.stage == Stage::Done ==> job.step(event) == (ActionView::<F>::Nothing, job),
        job.step(event).0 is Finalize <==> job.stage != Stage::Done && job.step(event).1.stage
            == Stage::Done,
        job.step(event).0 matches ActionView::Finalize { sink, .. } ==> sink == job.sink,
{
}

/// What arrives for another attempt than the one under way is dropped: a
/// result that comes late, after its attempt was given up for a retry,
/// changes nothing and reaches nobody.
pub proof fn lemma_late_arrival_is_dropped<F>(job: JobView, event: Event<F>)
    requires
        event.attempt != job.attempt,
    ensures
        job.step(event) == (ActionView::<F>::Nothing, job),
{
}

/// A retry gives the next attempt a number that the attempt before it did
/// not have, so that what arrives for the one is not taken for the other.
pub proof fn lemma_retry_renumbers<F>(job: JobView, event: Event<F>)
    requires
        job.wf(),
    ensures
        job.step(event).0 matches ActionView::Resubmit { attempt, .. } ==> attempt != job.attempt
            && job.step(event).1.attempt == attempt && job.step(event).1.stage
            == Stage::IssueWork,
        !(job.step(event).0 is Resubmit) ==> job.step(event).1.attempt == job.attempt,
{
}

/// An item that is done stays done, and its submitter hears no more of it.
pub proof fn lemma_done_is_silent<F>(job: JobView, events: Seq<Event<F>>)
    requires
        job.wf(),
        job.stage == Stage::Done,
    ensures
        job.after(events) == job,
        job.results(events) == Seq::<Result<bool, ErrorView>>::empty(),
    decreases events.len(),
{
    if events.len() > 0 {
        lemma_step(job, events[0]);
        lemma_done_is_silent(job, events.drop_first());
    }
}

/// The submitter of an item is handed one result, and only one: whatever
/// arrives for the item and in whatever order, no second result is handed
/// out, and the one result is handed out by the time the item is done.
pub proof fn lemma_one_result_per_item<F>(job: JobView, events: Seq<Event<F>>)
    requires
        job.wf(),
        job.stage != Stage::Done,
    ensures
        job.after(events).wf(),
        job.results(events).len() <= 1,
        job.results(events).len() == 1 <==> job.after(events).stage == Stage::Done,
    decreases events.len(),
{
    if events.len() > 0 {
        let next = job.step(events[0]).1;
        lemma_step(job, events[0]);
        if next.stage == Stage::Done {
            lemma_done_is_silent(next, events.drop_first());
        } else {
            lemma_one_result_per_item(next, events.drop_first());
        }
    }
}

/// The retry ceiling: a transient failure of an item whose path has failed
/// no more than [`RETRY_CEILING`] times leads to another attempt, under a
/// supervisor that carries the count; the failure after that ends the item
/// with a failure of its own.
pub proof fn lemma_ceiling_ends_item<F>(job: JobView, signal: Signal, count: u64)
    requires
        job.wf(),
        job.counts_retry(signal),
    ensures
        count <= RETRY_CEILING ==> job.failed::<F>(signal, count) == (
            ActionView::<F>::Resubmit {
                path: job.path,
                attempt: next_attempt(job.attempt),
                tries: count as nat,
                delay_ms: backoff(count as nat),
            },
            JobView {
                stage: Stage::IssueWork,
                attempt: next_attempt(job.attempt),
                handler: fresh(count as nat, job.handler.deadline_ms),
                ..job
            },
        ),
        count > RETRY_CEILING ==> job.failed::<F>(signal, count) == (
            ActionView::<F>::Finalize {
                sink: job.sink,
                result: Err::<bool, ErrorView>(gave_up(job.path)),
            },
            job.finished(),
        ),
{
}

/// The retries of a path are counted one by one: a count that directly
/// follows another for the same path is one more than it. The one other
/// outcome is that the counter has expired in between, and the count starts
/// again at one.
pub proof fn lemma_counts_go_up(
    before: Seq<(Seq<u8>, Seq<u8>)>,
    key: Seq<u8>,
    first: u64,
    capacity: nat,
    between: Seq<(Seq<u8>, Seq<u8>)>,
    second: u64,
    after: Seq<(Seq<u8>, Seq<u8>)>,
)
    requires
        capacity >= 1,
        well_formed(before, capacity),
        counter_step(before, key, first, capacity, between),
        counter_step(between, key, second, capacity, after),
    ensures
        second == next_count(first) || second == 1,
{
    let (stored0, mid0) = choose|stored: Option<Seq<u8>>, mid: Seq<(Seq<u8>, Seq<u8>)>|
        {
            &&& #[trigger] lookup_step(before, key, stored, mid)
            &&& first == next_count(count_of(stored))
            &&& store_step(mid, key, spec_u64_to_le_bytes(first), capacity, between)
        };
    let (stored1, mid1) = choose|stored: Option<Seq<u8>>, mid: Seq<(Seq<u8>, Seq<u8>)>|
        {
            &&& #[trigger] lookup_step(between, key, stored, mid)
            &&& second == next_count(count_of(stored))
            &&& store_step(mid, key, spec_u64_to_le_bytes(second), capacity, after)
        };
    let gone = choose|expired: int|
        0 <= expired <= before.len() && stored0 == value_of(#[trigger] before.skip(expired), key)
            && mid0 == touched(before.skip(expired), key);
    lemma_skip_well_formed(before, capacity, gone);
    lemma_touched_well_formed(before.skip(gone), key, capacity);
    lemma_get_after_put(mid0, key, spec_u64_to_le_bytes(first), capacity, between, stored1, mid1);
    lemma_auto_spec_u64_to_from_le_bytes();
}

} // verus!
