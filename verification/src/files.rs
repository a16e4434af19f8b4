//! The pool of file readers: serves the bytes of a path from its cache where
//! it can, and hands every other read to the next reader in turn.

use crate::cache::{
    bytes_view, lemma_get_after_put, lookup_step, reservable, store_step, well_formed,
    BoundedCache,
};
use crate::errors::{ErrorClass, ErrorKind, ErrorView};
use vstd::prelude::*;
use vstd::string::*;

verus! {

/// Seconds for which file content stays cached.
pub const FILE_CACHE_TTL_SECS: u32 = 120;

/// Number of files whose content is kept.
pub const FILE_CACHE_CAPACITY: usize = 5000;

/// The key under which the content of `path` is cached: its UTF-8 bytes.
pub open spec fn path_key(path: Seq<char>) -> Seq<u8> {
    vstd::utf8::encode_utf8(path)
}

/// The bytes of a path, as a key for the cache.
pub fn key_of_path(path: &str) -> (key: Vec<u8>)
    ensures
        key@ == path_key(path@),
{
    let mut key: Vec<u8> = Vec::new();
    key.extend_from_slice(path.as_bytes());
    assert(key@ =~= path_key(path@));
    key
}

/// How a request for file content is served.
#[derive(Debug)]
pub enum ReadPlan {
    /// The content was cached: these are its bytes, and no reader is needed.
    Cached(Vec<u8>),
    /// The content has to be read, by the reader with this index.
    Read { reader: usize },
}

/// Mathematical value of a [`ReadPlan`].
pub enum PlanView {
    Cached(Seq<u8>),
    Read { reader: nat },
}

impl View for ReadPlan {
    type V = PlanView;

    open spec fn view(&self) -> PlanView {
        match self {
            ReadPlan::Cached(bytes) => PlanView::Cached(bytes@),
            ReadPlan::Read { reader } => PlanView::Read { reader: *reader as nat },
        }
    }
}

/// Mathematical value of a [`FileReaderPool`].
pub struct PoolView {
    /// Number of readers in the pool.
    pub readers: nat,
    /// Index of the reader that gets the next read.
    pub next: nat,
    /// The cached file contents, least recently used first.
    pub cache: Seq<(Seq<u8>, Seq<u8>)>,
    /// Number of contents the cache has room for.
    pub capacity: nat,
    /// Seconds for which a content stays cached.
    pub ttl_secs: nat,
}

impl PoolView {
    /// The index after `self.next` in the cycle of readers.
    pub open spec fn following(self) -> nat {
        if self.next + 1 == self.readers {
            0
        } else {
            self.next + 1
        }
    }

    /// The pool after its next reader was given a read.
    pub open spec fn advanced(self) -> PoolView {
        PoolView { next: self.following(), ..self }
    }

    /// The plan for a request whose cache lookup found `cached`, and the
    /// pool it leaves when the lookup left `cache`.
    pub open spec fn planned(self, cached: Option<Seq<u8>>, cache: Seq<(Seq<u8>, Seq<u8>)>) -> (
        PlanView,
        PoolView,
    ) {
        match cached {
            Some(bytes) => (PlanView::Cached(bytes), PoolView { cache, ..self }),
            None => (
                PlanView::Read { reader: self.next },
                PoolView { cache, next: self.following(), ..self },
            ),
        }
    }

    /// A request for the content of the file keyed `key` that is served by
    /// `plan` and leaves the pool as `after`.
    pub open spec fn read_step(self, key: Seq<u8>, plan: PlanView, after: PoolView) -> bool {
        exists|cached: Option<Seq<u8>>|
            lookup_step(self.cache, key, cached, after.cache) && #[trigger] self.planned(
                cached,
                after.cache,
            ) == (plan, after)
    }

    /// The content `bytes` of the file keyed `key` enters the cache, leaving
    /// the pool as `after`.
    pub open spec fn cache_step(self, key: Seq<u8>, bytes: Seq<u8>, after: PoolView) -> bool {
        &&& after == PoolView { cache: after.cache, ..self }
        &&& if self.capacity == 0 {
            after.cache == self.cache
        } else {
            store_step(self.cache, key, bytes, self.capacity, after.cache)
        }
    }
}

/// The failure that stands for a file that could not be read.
pub open spec fn read_failure() -> ErrorView {
    ErrorView { class: ErrorClass::Unrecoverable, reason: "Failed to read file"@ }
}

/// A fixed set of file readers, used in turn, in front of a cache of file
/// contents.
pub struct FileReaderPool {
    readers: usize,
    next: usize,
    cache: BoundedCache,
}

impl View for FileReaderPool {
    type V = PoolView;

    closed spec fn view(&self) -> PoolView {
        PoolView {
            readers: self.readers as nat,
            next: self.next as nat,
            cache: self.cache@,
            capacity: self.cache.capacity(),
            ttl_secs: self.cache.ttl_secs(),
        }
    }
}

impl FileReaderPool {
    /// There is a reader to turn to, and the cache is in order.
    pub closed spec fn wf(&self) -> bool {
        &&& self.next < self.readers
        &&& self.cache.wf()
    }

    /// What a well-formed pool is known to satisfy.
    pub proof fn lemma_wf(&self)
        requires
            self.wf(),
        ensures
            self@.next < self@.readers,
            well_formed(self@.cache, self@.capacity),
    {
        self.cache.lemma_wf();
    }

    /// A pool of `readers` readers with an empty cache of the usual size.
    /// A pool needs at least one reader.
    pub fn new(readers: usize) -> (pool: FileReaderPool)
        requires
            readers >= 1,
        ensures
            pool.wf(),
            pool@ == (PoolView {
                readers: readers as nat,
                next: 0,
                cache: Seq::empty(),
                capacity: FILE_CACHE_CAPACITY as nat,
                ttl_secs: FILE_CACHE_TTL_SECS as nat,
            }),
    {
        FileReaderPool {
            readers,
            next: 0,
            cache: BoundedCache::new(FILE_CACHE_TTL_SECS, FILE_CACHE_CAPACITY),
        }
    }

    /// A pool of `readers` readers whose cache keeps `capacity` contents for
    /// `ttl_secs` seconds each.
    pub fn with_cache(readers: usize, ttl_secs: u32, capacity: usize) -> (pool: FileReaderPool)
        requires
            readers >= 1,
            reservable(capacity),
        ensures
            pool.wf(),
            pool@ == (PoolView {
                readers: readers as nat,
                next: 0,
                cache: Seq::empty(),
                capacity: capacity as nat,
                ttl_secs: ttl_secs as nat,
            }),
    {
        FileReaderPool { readers, next: 0, cache: BoundedCache::new(ttl_secs, capacity) }
    }

    /// The reader whose turn it is, after which the turn passes on.
    fn take_turn(&mut self) -> (reader: usize)
        requires
            old(self).wf(),
        ensures
            final(self).wf(),
            reader == old(self)@.next,
            final(self)@ == old(self)@.advanced(),
    {
        let reader = self.next;
        if self.next + 1 == self.readers {
            self.next = 0;
        } else {
            self.next = self.next + 1;
        }
        reader
    }

    /// Decides how a request is served once the cache has answered: cached
    /// bytes are handed back as they are, without a reader; otherwise the
    /// read goes to the reader whose turn it is.
    pub fn plan(&mut self, cached: Option<Vec<u8>>) -> (plan: ReadPlan)
        requires
            old(self).wf(),
        ensures
            final(self).wf(),
            (plan@, final(self)@) == old(self)@.planned(bytes_view(cached), old(self)@.cache),
    {
        match cached {
            Some(bytes) => ReadPlan::Cached(bytes),
            None => ReadPlan::Read { reader: self.take_turn() },
        }
    }

    /// Serves a request for the content of `path`: from the cache if it is
    /// there and has not expired, else by the next reader in turn.
    pub fn read_file(&mut self, path: &str) -> (plan: ReadPlan)
        requires
            old(self).wf(),
        ensures
            final(self).wf(),
            old(self)@.read_step(path_key(path@), plan@, final(self)@),
    {
        let key = key_of_path(path);
        let cached = self.cache.get(&key);
        let plan = self.plan(cached);
        proof {
            assert(old(self)@.planned(bytes_view(cached), self@.cache) == (plan@, self@));
        }
        plan
    }

    /// Keeps the content of `path` for later requests.
    pub fn cache_file(&mut self, path: &str, email: Vec<u8>)
        requires
            old(self).wf(),
        ensures
            final(self).wf(),
            old(self)@.cache_step(path_key(path@), email@, final(self)@),
    {
        let key = key_of_path(path);
        self.cache.put(key, email);
    }

    /// Has `path` read ahead of its use: the read goes to the next reader in
    /// turn, whatever the cache holds, and its result is only to be cached.
    pub fn prefetch(&mut self, path: &str) -> (reader: usize)
        requires
            old(self).wf(),
        ensures
            final(self).wf(),
            reader == old(self)@.next,
            final(self)@ == old(self)@.advanced(),
    {
        self.take_turn()
    }

    /// Takes the result of a read of `path`: content is cached and handed
    /// on; a read that failed is a permanent failure of that path.
    pub fn finish_read(&mut self, path: &str, content: Option<Vec<u8>>) -> (result: Result<
        Vec<u8>,
        ErrorKind,
    >)
        requires
            old(self).wf(),
        ensures
            final(self).wf(),
            match content {
                Some(bytes) => {
                    &&& old(self)@.cache_step(path_key(path@), bytes@, final(self)@)
                    &&& result matches Ok(handed)
                    &&& handed@ == bytes@
                },
                None => {
                    &&& final(self)@ == old(self)@
                    &&& result matches Err(e)
                    &&& e@ == read_failure()
                },
            },
    {
        match content {
            Some(bytes) => {
                let copy = bytes.clone();
                self.cache_file(path, bytes);
                Ok(copy)
            },
            None => Err(ErrorKind::unrecoverable("Failed to read file")),
        }
    }
}

/// Content that was cached is what the next request for its path gets,
/// however it came to be cached and without a reader being used. The one
/// other outcome is that it has expired in between: the request then goes to
/// the reader in turn and finds the cache empty.
pub proof fn lemma_cached_content_is_served(
    before: PoolView,
    key: Seq<u8>,
    bytes: Seq<u8>,
    between: PoolView,
    plan: PlanView,
    after: PoolView,
)
    requires
        before.capacity >= 1,
        well_formed(before.cache, before.capacity),
        before.cache_step(key, bytes, between),
        between.read_step(key, plan, after),
    ensures
        plan == PlanView::Cached(bytes) && after.next == before.next || plan == (PlanView::Read {
            reader: before.next,
        }) && after.cache.len() == 0,
{
    let cached = choose|cached: Option<Seq<u8>>|
        lookup_step(between.cache, key, cached, after.cache) && #[trigger] between.planned(
            cached,
            after.cache,
        ) == (plan, after);
    lemma_get_after_put(
        before.cache,
        key,
        bytes,
        before.capacity,
        between.cache,
        cached,
        after.cache,
    );
}

impl PoolView {
    /// The pool after `n` reads were handed to its readers.
    pub open spec fn turned(self, n: nat) -> PoolView
        decreases n,
    {
        if n == 0 {
            self
        } else {
            self.turned((n - 1) as nat).advanced()
        }
    }
}

/// The readers are used in a cycle: during as many reads as there are
/// readers, the turn is at the reader as many places further on, counted
/// round the cycle, so that no reader is used twice before each was used
/// once, and after that many reads the turn is where it was.
pub proof fn lemma_round_robin(pool: PoolView, n: nat)
    requires
        pool.next < pool.readers,
        n <= pool.readers,
    ensures
        pool.turned(n).next == if pool.next + n < pool.readers {
            pool.next + n
        } else {
            (pool.next + n - pool.readers) as nat
        },
        pool.turned(n).readers == pool.readers,
        pool.turned(n).cache == pool.cache,
    decreases n,
{
    if n > 0 {
        lemma_round_robin(pool, (n - 1) as nat);
    }
}

} // verus!
