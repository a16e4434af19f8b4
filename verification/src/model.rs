//! The model behind the pipeline: the cache of its predictions, the way its
//! replies are read, and the schedule on which its start is awaited.

use crate::cache::{
    bytes_view, lemma_get_after_put, lookup_step, reservable, store_step, well_formed,
    BoundedCache,
};
use crate::email_reader::{backoff, backoff_ms};
use crate::errors::{ErrorClass, ErrorKind, ErrorView};
use vstd::prelude::*;
use vstd::string::*;

verus! {

/// Seconds for which a prediction stays cached.
pub const PREDICTION_TTL_SECS: u32 = 60;

/// Number of predictions that are kept.
pub const PREDICTION_CAPACITY: usize = 10;

/// The number of times the start of the model is probed before it is given up.
pub const STARTUP_PROBES: usize = 15;

/// The key under which the prediction for a content hash is cached: the
/// hash, followed by the ten bytes of the word `prediction`.
pub open spec fn prediction_key(hash: Seq<u8>) -> Seq<u8> {
    hash + seq![112u8, 114u8, 101u8, 100u8, 105u8, 99u8, 116u8, 105u8, 111u8, 110u8]
}

/// The byte that a prediction is cached as.
pub open spec fn flag(prediction: bool) -> Seq<u8> {
    seq![if prediction {
        1u8
    } else {
        0u8
    }]
}

/// The prediction that cached bytes stand for, if they stand for one.
pub open spec fn read_flag(stored: Option<Seq<u8>>) -> Option<bool> {
    match stored {
        Some(bytes) => if bytes == flag(true) {
            Some(true)
        } else if bytes == flag(false) {
            Some(false)
        } else {
            None
        },
        None => None,
    }
}

/// A lookup of the prediction for `hash` that finds `found` and leaves the
/// cache as `after`.
pub open spec fn prediction_lookup(
    before: Seq<(Seq<u8>, Seq<u8>)>,
    hash: Seq<u8>,
    found: Option<bool>,
    after: Seq<(Seq<u8>, Seq<u8>)>,
) -> bool {
    exists|stored: Option<Seq<u8>>|
        found == read_flag(stored) && #[trigger] lookup_step(
            before,
            prediction_key(hash),
            stored,
            after,
        )
}

/// The predictions made so far, by content hash. Its view is that of the
/// cache beneath it.
pub struct PredictionCache {
    cache: BoundedCache,
}

impl View for PredictionCache {
    type V = Seq<(Seq<u8>, Seq<u8>)>;

    closed spec fn view(&self) -> Seq<(Seq<u8>, Seq<u8>)> {
        self.cache@
    }
}

impl PredictionCache {
    /// The cache beneath is in order.
    pub closed spec fn wf(&self) -> bool {
        self.cache.wf()
    }

    /// The number of predictions the cache has room for.
    pub closed spec fn capacity(&self) -> nat {
        self.cache.capacity()
    }

    /// The number of seconds for which a prediction stays cached.
    pub closed spec fn ttl_secs(&self) -> nat {
        self.cache.ttl_secs()
    }

    /// What a well-formed cache is known to satisfy.
    pub proof fn lemma_wf(&self)
        requires
            self.wf(),
        ensures
            well_formed(self@, self.capacity()),
    {
        self.cache.lemma_wf();
    }

    /// An empty cache of the usual size.
    pub fn new() -> (cache: PredictionCache)
        ensures
            cache.wf(),
            cache@ == Seq::<(Seq<u8>, Seq<u8>)>::empty(),
            cache.capacity() == PREDICTION_CAPACITY,
            cache.ttl_secs() == PREDICTION_TTL_SECS,
    {
        PredictionCache { cache: BoundedCache::new(PREDICTION_TTL_SECS, PREDICTION_CAPACITY) }
    }

    /// An empty cache that keeps `capacity` predictions for `ttl_secs`
    /// seconds each.
    pub fn with_limits(ttl_secs: u32, capacity: usize) -> (cache: PredictionCache)
        requires
            reservable(capacity),
        ensures
            cache.wf(),
            cache@ == Seq::<(Seq<u8>, Seq<u8>)>::empty(),
            cache.capacity() == capacity,
            cache.ttl_secs() == ttl_secs,
    {
        PredictionCache { cache: BoundedCache::new(ttl_secs, capacity) }
    }

    /// The cache key for a content hash.
    pub fn key_for(email_hash: Vec<u8>) -> (key: Vec<u8>)
        ensures
            key@ == prediction_key(email_hash@),
    {
        let mut key = email_hash;
        key.push(112u8);
        key.push(114u8);
        key.push(101u8);
        key.push(100u8);
        key.push(105u8);
        key.push(99u8);
        key.push(116u8);
        key.push(105u8);
        key.push(111u8);
        key.push(110u8);
        assert(key@ =~= prediction_key(email_hash@));
        key
    }

    /// Reads cached bytes as a prediction.
    pub fn decode(stored: Option<Vec<u8>>) -> (found: Option<bool>)
        ensures
            found == read_flag(bytes_view(stored)),
    {
        match stored {
            Some(bytes) => {
                if bytes.len() != 1 {
                    None
                } else if bytes[0] == 1u8 {
                    assert(bytes@ =~= flag(true));
                    Some(true)
                } else if bytes[0] == 0u8 {
                    assert(bytes@ =~= flag(false));
                    Some(false)
                } else {
                    assert(flag(true)[0] == 1u8 && flag(false)[0] == 0u8);
                    None
                }
            },
            None => None,
        }
    }

    /// The prediction cached for a content hash, if there is one that has
    /// not expired.
    pub fn get(&mut self, email_hash: Vec<u8>) -> (found: Option<bool>)
        requires
            old(self).wf(),
        ensures
            final(self).wf(),
            final(self).capacity() == old(self).capacity(),
            final(self).ttl_secs() == old(self).ttl_secs(),
            prediction_lookup(old(self)@, email_hash@, found, final(self)@),
    {
        let key = Self::key_for(email_hash);
        let stored = self.cache.get(&key);
        proof {
            assert(lookup_step(
                old(self)@,
                prediction_key(email_hash@),
                bytes_view(stored),
                self@,
            ));
        }
        Self::decode(stored)
    }

    /// Caches `prediction` for a content hash.
    pub fn set(&mut self, email_hash: Vec<u8>, prediction: bool)
        requires
            old(self).wf(),
        ensures
            final(self).wf(),
            final(self).capacity() == old(self).capacity(),
            final(self).ttl_secs() == old(self).ttl_secs(),
            old(self).capacity() == 0 ==> final(self)@ == old(self)@,
            old(self).capacity() >= 1 ==> store_step(
                old(self)@,
                prediction_key(email_hash@),
                flag(prediction),
                old(self).capacity(),
                final(self)@,
            ),
    {
        let key = Self::key_for(email_hash);
        let mut value: Vec<u8> = Vec::new();
        value.push(if prediction {
            1u8
        } else {
            0u8
        });
        assert(value@ =~= flag(prediction));
        self.cache.put(key, value);
    }
}

/// A prediction that was cached for a content hash is what the next lookup
/// of that hash finds, whichever path the content came by. The one other
/// outcome is that it has expired in between: the lookup then finds nothing
/// and leaves the cache empty.
pub proof fn lemma_cached_prediction_is_found(
    before: Seq<(Seq<u8>, Seq<u8>)>,
    capacity: nat,
    hash: Seq<u8>,
    prediction: bool,
    between: Seq<(Seq<u8>, Seq<u8>)>,
    found: Option<bool>,
    after: Seq<(Seq<u8>, Seq<u8>)>,
)
    requires
        capacity >= 1,
        well_formed(before, capacity),
        store_step(before, prediction_key(hash), flag(prediction), capacity, between),
        prediction_lookup(between, hash, found, after),
    ensures
        found == Some(prediction) || (found is None && after.len() == 0),
{
    let stored = choose|stored: Option<Seq<u8>>|
        found == read_flag(stored) && #[trigger] lookup_step(
            between,
            prediction_key(hash),
            stored,
            after,
        );
    lemma_get_after_put(
        before,
        prediction_key(hash),
        flag(prediction),
        capacity,
        between,
        stored,
        after,
    );
    assert(flag(true)[0] == 1u8 && flag(false)[0] == 0u8);
}

/// The failure that stands for a reply which is neither `T` nor `F`.
pub open spec fn unreadable_reply() -> ErrorView {
    ErrorView {
        class: ErrorClass::Unclassified,
        reason: "Failed to parse python service response as boolean"@,
    }
}

/// The failure that stands for a request which got no reply, for the reason
/// `cause`.
pub open spec fn unreachable_model(cause: Seq<char>) -> ErrorView {
    ErrorView { class: ErrorClass::Recoverable, reason: "Failed to predict "@ + cause }
}

/// What the body of a reply of the model says: `T` is a positive
/// prediction, `F` a negative one, and anything else is no prediction.
pub open spec fn reply_meaning(content: Seq<char>) -> Result<bool, ErrorView> {
    if content == "T"@ {
        Ok(true)
    } else if content == "F"@ {
        Ok(false)
    } else {
        Err(unreadable_reply())
    }
}

/// What a request to the model has come to: a reply is read by its body, and
/// a request that failed is a transient failure.
pub open spec fn prediction_of(reply: Result<Seq<char>, Seq<char>>) -> Result<bool, ErrorView> {
    match reply {
        Ok(content) => reply_meaning(content),
        Err(cause) => Err(unreachable_model(cause)),
    }
}

/// What is due while the model starts.
#[derive(Clone, Copy, Debug, PartialEq, Eq, Structural)]
pub enum Startup {
    /// Wait this many milliseconds, then probe the health of the model.
    Probe { wait_ms: u64 },
    /// The model has answered a probe.
    Ready,
    /// The model has answered none of the probes.
    Failed,
}

/// Mathematical value of a [`PythonModel`].
pub struct ModelView {
    /// The local port on which the model listens.
    pub port: u16,
    /// The number of probes that have failed.
    pub failed_probes: nat,
    /// Whether a probe was answered.
    pub up: bool,
}

impl ModelView {
    /// What is due: up to [`STARTUP_PROBES`] probes, each after twice the
    /// wait of the one before, the first after two milliseconds.
    pub open spec fn startup(self) -> Startup {
        if self.up {
            Startup::Ready
        } else if self.failed_probes < STARTUP_PROBES {
            Startup::Probe { wait_ms: backoff(self.failed_probes + 1) as u64 }
        } else {
            Startup::Failed
        }
    }

    /// The model after a probe that was answered or not. Once the model is
    /// up or given up, a probe changes nothing.
    pub open spec fn probed(self, healthy: bool) -> ModelView {
        if self.up || self.failed_probes >= STARTUP_PROBES {
            self
        } else if healthy {
            ModelView { up: true, ..self }
        } else {
            ModelView { failed_probes: self.failed_probes + 1, ..self }
        }
    }

    /// The model after the probes `probes`, one after the other.
    pub open spec fn after_probes(self, probes: Seq<bool>) -> ModelView
        decreases probes.len(),
    {
        if probes.len() == 0 {
            self
        } else {
            self.probed(probes[0]).after_probes(probes.drop_first())
        }
    }
}

/// A model that runs as a process of its own and is reached over a local
/// port.
#[derive(Debug)]
pub struct PythonModel {
    port: u16,
    failed_probes: usize,
    up: bool,
}

impl View for PythonModel {
    type V = ModelView;

    closed spec fn view(&self) -> ModelView {
        ModelView { port: self.port, failed_probes: self.failed_probes as nat, up: self.up }
    }
}

impl PythonModel {
    /// No more probes have failed than are made.
    pub open spec fn wf(&self) -> bool {
        self@.failed_probes <= STARTUP_PROBES
    }

    /// A model on `port` whose start has not been confirmed yet.
    pub fn new(port: u16) -> (model: PythonModel)
        ensures
            model.wf(),
            model@ == (ModelView { port, failed_probes: 0, up: false }),
    {
        PythonModel { port, failed_probes: 0, up: false }
    }

    /// The port on which the model listens.
    pub fn port(&self) -> (port: u16)
        ensures
            port == self@.port,
    {
        self.port
    }

    /// What is due while the model starts.
    pub fn startup(&self) -> (due: Startup)
        requires
            self.wf(),
        ensures
            due == self@.startup(),
    {
        if self.up {
            Startup::Ready
        } else if self.failed_probes < STARTUP_PROBES {
            Startup::Probe { wait_ms: backoff_ms(self.failed_probes + 1) }
        } else {
            Startup::Failed
        }
    }

    /// Records whether a probe was answered.
    pub fn probed(&mut self, healthy: bool)
        requires
            old(self).wf(),
        ensures
            final(self).wf(),
            final(self)@ == old(self)@.probed(healthy),
    {
        if self.up || self.failed_probes >= STARTUP_PROBES {
            return ;
        }
        if healthy {
            self.up = true;
        } else {
            self.failed_probes = self.failed_probes + 1;
        }
    }

    /// Reads what a request to the model has come to: the body of its reply,
    /// or the reason for which there was none.
    pub fn predict(&self, reply: Result<String, String>) -> (prediction: Result<bool, ErrorKind>)
        ensures
            crate::errors::outcome_view(prediction) == prediction_of(
                match reply {
                    Ok(content) => Ok(content@),
                    Err(cause) => Err(cause@),
                },
            ),
    {
        match reply {
            Ok(content) => {
                if content == String::from_str("T") {
                    Ok(true)
                } else if content == String::from_str("F") {
                    Ok(false)
                } else {
                    Err(ErrorKind::message("Failed to parse python service response as boolean"))
                }
            },
            Err(cause) => Err(
                ErrorKind::RecoverableError(
                    String::from_str("Failed to predict ").concat(cause.as_str()),
                ),
            ),
        }
    }
}

/// A model that answers no probe is given up after exactly
/// [`STARTUP_PROBES`] of them, and not before.
pub proof fn lemma_startup_gives_up(probes: Seq<bool>, port: u16)
    requires
        forall|i: int| 0 <= i < probes.len() ==> !probes[i],
    ensures
        ({
            let fresh = ModelView { port, failed_probes: 0, up: false };
            fresh.after_probes(probes).startup() == Startup::Failed <==> probes.len()
                >= STARTUP_PROBES
        }),
{
    lemma_failed_probes(ModelView { port, failed_probes: 0, up: false }, probes);
}

proof fn lemma_failed_probes(model: ModelView, probes: Seq<bool>)
    requires
        forall|i: int| 0 <= i < probes.len() ==> !probes[i],
        !model.up,
        model.failed_probes <= STARTUP_PROBES,
    ensures
        !model.after_probes(probes).up,
        model.after_probes(probes).failed_probes == if model.failed_probes + probes.len()
            <= STARTUP_PROBES {
            model.failed_probes + probes.len()
        } else {
            STARTUP_PROBES as nat
        },
    decreases probes.len(),
{
    if probes.len() > 0 {
        assert(!probes[0]);
        assert forall|i: int| 0 <= i < probes.drop_first().len() implies !probes.drop_first()[i] by {
            assert(probes.drop_first()[i] == probes[i + 1]);
        }
        lemma_failed_probes(model.probed(probes[0]), probes.drop_first());
    }
}

} // verus!
