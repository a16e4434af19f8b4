//! The bounded cache: a map from byte keys to byte values that holds at most
//! `capacity` entries, evicts the least recently used entry first and lets
//! entries expire a fixed time after they were last touched.
//!
//! The store itself is `lru_time_cache::LruCache`. It reads the clock on every
//! call, so what a call finds depends on how much time has passed. The model
//! used here is the sequence of live entries, least recently used first; a
//! call first drops some prefix of that sequence (the entries that have
//! expired), and how long that prefix is stays open.

use lru_time_cache::LruCache;
use std::time::Duration;
use vstd::prelude::*;

verus! {

#[verifier::external_type_specification]
#[verifier::external_body]
#[verifier::reject_recursive_types(Key)]
#[verifier::reject_recursive_types(Value)]
pub struct ExLruCache<Key, Value>(LruCache<Key, Value>);

/// The entries of a cache, least recently used first, each a key and the
/// value stored under it.
pub uninterp spec fn lru_entries(cache: LruCache<Vec<u8>, Vec<u8>>) -> Seq<(Seq<u8>, Seq<u8>)>;

/// The number of entries a cache was made to hold.
pub uninterp spec fn lru_capacity(cache: LruCache<Vec<u8>, Vec<u8>>) -> nat;

/// The number of seconds that an entry of a cache lives after it was last
/// stored or found.
pub uninterp spec fn lru_ttl_secs(cache: LruCache<Vec<u8>, Vec<u8>>) -> nat;

/// The bytes that a cache reserves for each entry it is made to hold: the
/// three words of a key in its list of keys.
pub const ENTRY_BYTES: usize = 24;

/// Whether room for `capacity` entries can be reserved: no allocation is
/// larger than `isize::MAX` bytes.
pub open spec fn reservable(capacity: usize) -> bool {
    capacity * ENTRY_BYTES <= isize::MAX
}

/// No two entries share a key.
pub open spec fn distinct_keys(entries: Seq<(Seq<u8>, Seq<u8>)>) -> bool {
    forall|i: int, j: int|
        0 <= i < entries.len() && 0 <= j < entries.len() && i != j ==> entries[i].0
            != entries[j].0
}

/// Whether some entry is stored under `key`.
pub open spec fn holds(entries: Seq<(Seq<u8>, Seq<u8>)>, key: Seq<u8>) -> bool {
    exists|i: int| 0 <= i < entries.len() && entries[i].0 == key
}

/// The place of the entry stored under `key`, where there is one.
pub open spec fn slot_of(entries: Seq<(Seq<u8>, Seq<u8>)>, key: Seq<u8>) -> int {
    choose|i: int| 0 <= i < entries.len() && entries[i].0 == key
}

/// The value stored under `key`, if any.
pub open spec fn value_of(entries: Seq<(Seq<u8>, Seq<u8>)>, key: Seq<u8>) -> Option<Seq<u8>> {
    if holds(entries, key) {
        Some(entries[slot_of(entries, key)].1)
    } else {
        None
    }
}

/// The entries after a lookup of `key`: an entry that is found becomes the
/// most recently used one.
pub open spec fn touched(entries: Seq<(Seq<u8>, Seq<u8>)>, key: Seq<u8>) -> Seq<
    (Seq<u8>, Seq<u8>),
> {
    if holds(entries, key) {
        let at = slot_of(entries, key);
        entries.remove(at).push(entries[at])
    } else {
        entries
    }
}

/// The entries after `value` is stored under `key` in a cache made for
/// `capacity` entries: an entry under the same key is replaced; otherwise a
/// full cache first gives up its least recently used entries. Either way the
/// new entry is the most recently used one.
pub open spec fn stored(
    entries: Seq<(Seq<u8>, Seq<u8>)>,
    key: Seq<u8>,
    value: Seq<u8>,
    capacity: nat,
) -> Seq<(Seq<u8>, Seq<u8>)> {
    if holds(entries, key) {
        entries.remove(slot_of(entries, key)).push((key, value))
    } else if entries.len() >= capacity {
        entries.skip(entries.len() - capacity + 1).push((key, value))
    } else {
        entries.push((key, value))
    }
}

/// A lookup of `key` that finds `found` and leaves `after`: the first
/// `expired` entries of `before` are gone, and the lookup acts on the rest.
pub open spec fn lookup_step(
    before: Seq<(Seq<u8>, Seq<u8>)>,
    key: Seq<u8>,
    found: Option<Seq<u8>>,
    after: Seq<(Seq<u8>, Seq<u8>)>,
) -> bool {
    exists|expired: int|
        0 <= expired <= before.len() && found == value_of(#[trigger] before.skip(expired), key)
            && after == touched(before.skip(expired), key)
}

/// A store of `value` under `key` that leaves `after`: the first `expired`
/// entries of `before` are gone, and the store acts on the rest.
pub open spec fn store_step(
    before: Seq<(Seq<u8>, Seq<u8>)>,
    key: Seq<u8>,
    value: Seq<u8>,
    capacity: nat,
    after: Seq<(Seq<u8>, Seq<u8>)>,
) -> bool {
    exists|expired: int|
        0 <= expired <= before.len() && after == stored(
            #[trigger] before.skip(expired),
            key,
            value,
            capacity,
        )
}

/// The view of an optional byte vector.
pub open spec fn bytes_view(found: Option<Vec<u8>>) -> Option<Seq<u8>> {
    match found {
        Some(bytes) => Some(bytes@),
        None => None,
    }
}

/// `LruCache::with_expiry_duration_and_capacity`: an empty cache for
/// `capacity` entries that live for `ttl_secs` seconds. The call reserves a
/// list of `capacity` keys at once, and panics where that is more than
/// `isize::MAX` bytes.
#[verifier::external_body]
fn lru_with_expiry_and_capacity(ttl_secs: u32, capacity: usize) -> (cache: LruCache<
    Vec<u8>,
    Vec<u8>,
>)
    requires
        reservable(capacity),
    ensures
        lru_entries(cache) == Seq::<(Seq<u8>, Seq<u8>)>::empty(),
        lru_capacity(cache) == capacity,
        lru_ttl_secs(cache) == ttl_secs,
{
    LruCache::with_expiry_duration_and_capacity(Duration::from_secs(ttl_secs.into()), capacity)
}

/// `LruCache::get`: drops the expired entries, which are the least recently
/// used ones, then returns a copy of the value under `key`, if there is one,
/// and makes that entry the most recently used.
#[verifier::external_body]
fn lru_get(cache: &mut LruCache<Vec<u8>, Vec<u8>>, key: &Vec<u8>) -> (found: Option<Vec<u8>>)
    ensures
        lru_capacity(*final(cache)) == lru_capacity(*old(cache)),
        lru_ttl_secs(*final(cache)) == lru_ttl_secs(*old(cache)),
        lookup_step(lru_entries(*old(cache)), key@, bytes_view(found), lru_entries(*final(cache))),
{
    cache.get(key).cloned()
}

/// `LruCache::insert`: drops the expired entries, then stores `value` under
/// `key` as the most recently used entry; a full cache first drops its least
/// recently used entry. With a capacity of zero the call panics.
#[verifier::external_body]
fn lru_insert(cache: &mut LruCache<Vec<u8>, Vec<u8>>, key: Vec<u8>, value: Vec<u8>)
    requires
        lru_capacity(*old(cache)) >= 1,
    ensures
        lru_capacity(*final(cache)) == lru_capacity(*old(cache)),
        lru_ttl_secs(*final(cache)) == lru_ttl_secs(*old(cache)),
        store_step(
            lru_entries(*old(cache)),
            key@,
            value@,
            lru_capacity(*old(cache)),
            lru_entries(*final(cache)),
        ),
{
    let _ = cache.insert(key, value);
}

/// What makes a sequence of entries the content of a cache made for
/// `capacity` entries.
pub open spec fn well_formed(entries: Seq<(Seq<u8>, Seq<u8>)>, capacity: nat) -> bool {
    entries.len() <= capacity && distinct_keys(entries)
}

/// Dropping a prefix keeps a cache content well formed, and what remains
/// holds only keys that were held before.
pub proof fn lemma_skip_well_formed(entries: Seq<(Seq<u8>, Seq<u8>)>, capacity: nat, n: int)
    requires
        well_formed(entries, capacity),
        0 <= n <= entries.len(),
    ensures
        well_formed(entries.skip(n), capacity),
        forall|key: Seq<u8>| holds(entries.skip(n), key) ==> holds(entries, key),
{
    let rest = entries.skip(n);
    assert forall|key: Seq<u8>| holds(rest, key) implies holds(entries, key) by {
        let i = choose|i: int| 0 <= i < rest.len() && rest[i].0 == key;
        assert(entries[i + n].0 == key);
    }
}

/// Moving an entry to the back, with the same or another value, leaves no
/// key twice.
pub proof fn lemma_moved_to_back(
    entries: Seq<(Seq<u8>, Seq<u8>)>,
    at: int,
    value: Seq<u8>,
)
    requires
        distinct_keys(entries),
        0 <= at < entries.len(),
    ensures
        distinct_keys(entries.remove(at).push((entries[at].0, value))),
        entries.remove(at).push((entries[at].0, value)).len() == entries.len(),
{
    let after = entries.remove(at).push((entries[at].0, value));
    assert forall|i: int, j: int|
        0 <= i < after.len() && 0 <= j < after.len() && i != j implies after[i].0
        != after[j].0 by {
        let oi = if i == after.len() - 1 {
            at
        } else if i < at {
            i
        } else {
            i + 1
        };
        let oj = if j == after.len() - 1 {
            at
        } else if j < at {
            j
        } else {
            j + 1
        };
        assert(after[i].0 == entries[oi].0);
        assert(after[j].0 == entries[oj].0);
    }
}

/// A lookup keeps a cache content well formed.
pub proof fn lemma_touched_well_formed(
    entries: Seq<(Seq<u8>, Seq<u8>)>,
    key: Seq<u8>,
    capacity: nat,
)
    requires
        well_formed(entries, capacity),
    ensures
        well_formed(touched(entries, key), capacity),
{
    if holds(entries, key) {
        let at = slot_of(entries, key);
        lemma_moved_to_back(entries, at, entries[at].1);
    }
}

/// A store keeps a cache content well formed, and the new entry is the last.
pub proof fn lemma_stored_well_formed(
    entries: Seq<(Seq<u8>, Seq<u8>)>,
    key: Seq<u8>,
    value: Seq<u8>,
    capacity: nat,
)
    requires
        well_formed(entries, capacity),
        capacity >= 1,
    ensures
        well_formed(stored(entries, key, value, capacity), capacity),
        stored(entries, key, value, capacity).len() >= 1,
        stored(entries, key, value, capacity).last() == (key, value),
{
    let after = stored(entries, key, value, capacity);
    if holds(entries, key) {
        lemma_moved_to_back(entries, slot_of(entries, key), value);
    } else {
        let cut: int = if entries.len() >= capacity {
            entries.len() - capacity + 1
        } else {
            0
        };
        assert(entries.skip(0) == entries);
        assert(after == entries.skip(cut).push((key, value)));
        assert forall|i: int, j: int|
            0 <= i < after.len() && 0 <= j < after.len() && i != j implies after[i].0
            != after[j].0 by {
            if i < after.len() - 1 {
                assert(after[i] == entries[i + cut]);
            }
            if j < after.len() - 1 {
                assert(after[j] == entries[j + cut]);
            }
        }
    }
}

/// A lookup that finds nothing leaves nothing under the key; one that finds a
/// value found it in the cache as it was, and leaves it as the most recently
/// used entry.
pub proof fn lemma_lookup_outcome(
    before: Seq<(Seq<u8>, Seq<u8>)>,
    key: Seq<u8>,
    found: Option<Seq<u8>>,
    after: Seq<(Seq<u8>, Seq<u8>)>,
    capacity: nat,
)
    requires
        well_formed(before, capacity),
        lookup_step(before, key, found, after),
    ensures
        found is None ==> !holds(after, key),
        found is Some ==> value_of(before, key) == found && after.len() >= 1 && after.last() == (
            key,
            found->0,
        ),
{
    let expired = choose|expired: int|
        0 <= expired <= before.len() && found == value_of(#[trigger] before.skip(expired), key)
            && after == touched(before.skip(expired), key);
    let live = before.skip(expired);
    lemma_skip_well_formed(before, capacity, expired);
    if holds(live, key) {
        let at = slot_of(live, key);
        assert(before[at + expired] == live[at]);
        assert(holds(before, key));
        assert(slot_of(before, key) == at + expired);
    }
}

/// Cache correctness, first half: a lookup that directly follows a store
/// under the same key finds the stored value. The one other outcome is that
/// the entry has expired in between: the lookup then finds nothing and leaves
/// the cache empty, the entry having been the most recently used one.
pub proof fn lemma_get_after_put(
    before: Seq<(Seq<u8>, Seq<u8>)>,
    key: Seq<u8>,
    value: Seq<u8>,
    capacity: nat,
    between: Seq<(Seq<u8>, Seq<u8>)>,
    found: Option<Seq<u8>>,
    after: Seq<(Seq<u8>, Seq<u8>)>,
)
    requires
        capacity >= 1,
        well_formed(before, capacity),
        store_step(before, key, value, capacity, between),
        lookup_step(between, key, found, after),
    ensures
        found == Some(value) || (found is None && after.len() == 0),
        found is Some ==> after.len() >= 1 && after.last() == (key, value),
{
    let gone = choose|expired: int|
        0 <= expired <= before.len() && between == stored(
            #[trigger] before.skip(expired),
            key,
            value,
            capacity,
        );
    lemma_skip_well_formed(before, capacity, gone);
    lemma_stored_well_formed(before.skip(gone), key, value, capacity);
    let expired = choose|expired: int|
        0 <= expired <= between.len() && found == value_of(
            #[trigger] between.skip(expired),
            key,
        ) && after == touched(between.skip(expired), key);
    let live = between.skip(expired);
    lemma_skip_well_formed(between, capacity, expired);
    if expired < between.len() {
        let last = live.len() - 1;
        assert(live[last] == between[between.len() - 1]);
        assert(holds(live, key));
        assert(slot_of(live, key) == last);
        assert(live.remove(last).push(live[last]) == live);
    } else {
        assert(live.len() == 0);
    }
}

/// The keys of `keys` are those of the last entries of `entries`, in order.
pub open spec fn ends_with_keys(entries: Seq<(Seq<u8>, Seq<u8>)>, keys: Seq<Seq<u8>>) -> bool {
    &&& entries.len() >= keys.len()
    &&& forall|i: int|
        0 <= i < keys.len() ==> (#[trigger] entries[entries.len() - keys.len() + i]).0 == keys[i]
}

/// `states` are the contents of a cache before, between and after the stores
/// of `values` under `keys`, made one after the other.
pub open spec fn stores_in_turn(
    states: Seq<Seq<(Seq<u8>, Seq<u8>)>>,
    keys: Seq<Seq<u8>>,
    values: Seq<Seq<u8>>,
    capacity: nat,
) -> bool {
    &&& states.len() == keys.len() + 1
    &&& values.len() == keys.len()
    &&& forall|i: int|
        0 <= i < keys.len() ==> store_step(
            states[i],
            #[trigger] keys[i],
            values[i],
            capacity,
            states[i + 1],
        )
}

proof fn lemma_store_extends_tail(
    before: Seq<(Seq<u8>, Seq<u8>)>,
    key: Seq<u8>,
    value: Seq<u8>,
    capacity: nat,
    after: Seq<(Seq<u8>, Seq<u8>)>,
    tail: Seq<Seq<u8>>,
)
    requires
        capacity >= 1,
        well_formed(before, capacity),
        store_step(before, key, value, capacity, after),
        tail.len() >= 1,
        !tail.contains(key),
        holds(before, tail[0]) ==> ends_with_keys(before, tail),
    ensures
        well_formed(after, capacity),
        holds(after, tail[0]) ==> ends_with_keys(after, tail.push(key)),
{
    let expired = choose|expired: int|
        0 <= expired <= before.len() && after == stored(
            #[trigger] before.skip(expired),
            key,
            value,
            capacity,
        );
    let live = before.skip(expired);
    let first = tail[0];
    let n = tail.len() as int;
    lemma_skip_well_formed(before, capacity, expired);
    lemma_stored_well_formed(live, key, value, capacity);
    assert(tail.contains(first));
    if holds(after, first) {
        let w = choose|i: int| 0 <= i < after.len() && after[i].0 == first;
        // the entry under `first` was live before the store
        if holds(live, key) {
            let at = slot_of(live, key);
            assert(after[w] == live[if w < at {
                w
            } else {
                w + 1
            }]);
        } else {
            let cut: int = if live.len() >= capacity {
                live.len() - capacity + 1
            } else {
                0
            };
            assert(live.skip(0) == live);
            assert(after == live.skip(cut).push((key, value)));
            assert(after[w] == live[w + cut]);
        }
        assert(holds(live, first));
        assert(holds(before, first));
        let p = choose|i: int| 0 <= i < live.len() && live[i].0 == first;
        assert(before[p + expired] == live[p]);
        assert(before[before.len() - n + 0].0 == tail[0]);
        assert(p + expired == before.len() - n);
        assert(p == live.len() - n);
        assert forall|i: int| 0 <= i < n implies (#[trigger] live[live.len() - n + i]).0
            == tail[i] by {
            assert(live[live.len() - n + i] == before[before.len() - n + i]);
        }
        let grown = tail.push(key);
        if holds(live, key) {
            let at = slot_of(live, key);
            if at >= live.len() - n {
                assert(live[live.len() - n + (at - (live.len() - n))].0 == tail[at - (live.len()
                    - n)]);
                assert(tail.contains(key));
            }
            assert forall|i: int| 0 <= i < grown.len() implies (#[trigger] after[after.len()
                - grown.len() + i]).0 == grown[i] by {
                if i < n {
                    assert(after[after.len() - grown.len() + i] == live[live.len() - n + i]);
                }
            }
        } else {
            let cut: int = if live.len() >= capacity {
                live.len() - capacity + 1
            } else {
                0
            };
            assert(after[w] == live[w + cut]);
            assert(w + cut == p);
            assert forall|i: int| 0 <= i < grown.len() implies (#[trigger] after[after.len()
                - grown.len() + i]).0 == grown[i] by {
                if i < n {
                    assert(after[after.len() - grown.len() + i] == live[live.len() - n + i]);
                }
            }
        }
    }
}

proof fn lemma_tail_after_stores(
    states: Seq<Seq<(Seq<u8>, Seq<u8>)>>,
    keys: Seq<Seq<u8>>,
    values: Seq<Seq<u8>>,
    capacity: nat,
    done: int,
)
    requires
        capacity >= 1,
        stores_in_turn(states, keys, values, capacity),
        well_formed(states[0], capacity),
        keys.no_duplicates(),
        1 <= done <= keys.len(),
    ensures
        well_formed(states[done], capacity),
        holds(states[done], keys[0]) ==> ends_with_keys(states[done], keys.take(done)),
    decreases done,
{
    if done == 1 {
        let gone = choose|expired: int|
            0 <= expired <= states[0].len() && states[1] == stored(
                #[trigger] states[0].skip(expired),
                keys[0],
                values[0],
                capacity,
            );
        lemma_skip_well_formed(states[0], capacity, gone);
        lemma_stored_well_formed(states[0].skip(gone), keys[0], values[0], capacity);
        assert(keys.take(1)[0] == keys[0]);
    } else {
        lemma_tail_after_stores(states, keys, values, capacity, done - 1);
        let tail = keys.take(done - 1);
        assert(tail[0] == keys[0]);
        assert(!tail.contains(keys[done - 1])) by {
            if tail.contains(keys[done - 1]) {
                let i = choose|i: int| 0 <= i < tail.len() && tail[i] == keys[done - 1];
                assert(keys[i] == keys[done - 1]);
            }
        }
        lemma_store_extends_tail(
            states[done - 1],
            keys[done - 1],
            values[done - 1],
            capacity,
            states[done],
            tail,
        );
        assert(tail.push(keys[done - 1]) == keys.take(done));
    }
}

/// Cache correctness, second half: once more distinct keys than the cache
/// has room for were stored one after the other, nothing is left under the
/// first of them, and a lookup of it finds nothing.
pub proof fn lemma_overflow_evicts_first(
    states: Seq<Seq<(Seq<u8>, Seq<u8>)>>,
    keys: Seq<Seq<u8>>,
    values: Seq<Seq<u8>>,
    capacity: nat,
    found: Option<Seq<u8>>,
    after: Seq<(Seq<u8>, Seq<u8>)>,
)
    requires
        capacity >= 1,
        stores_in_turn(states, keys, values, capacity),
        well_formed(states[0], capacity),
        keys.no_duplicates(),
        keys.len() > capacity,
        lookup_step(states.last(), keys[0], found, after),
    ensures
        !holds(states.last(), keys[0]),
        found is None,
{
    lemma_tail_after_stores(states, keys, values, capacity, keys.len() as int);
    lemma_lookup_outcome(states.last(), keys[0], found, after, capacity);
}

/// A map from byte keys to byte values, bounded in size and in the age of
/// its entries. Its view is the sequence of its entries, least recently used
/// first.
pub struct BoundedCache {
    store: LruCache<Vec<u8>, Vec<u8>>,
    capacity: usize,
}

impl View for BoundedCache {
    type V = Seq<(Seq<u8>, Seq<u8>)>;

    closed spec fn view(&self) -> Seq<(Seq<u8>, Seq<u8>)> {
        lru_entries(self.store)
    }
}

impl BoundedCache {
    /// The number of entries the cache was made to hold.
    pub closed spec fn capacity(&self) -> nat {
        self.capacity as nat
    }

    /// The number of seconds that an entry lives after it was last stored
    /// or found.
    pub closed spec fn ttl_secs(&self) -> nat {
        lru_ttl_secs(self.store)
    }

    /// The cache holds no more than its capacity, and no key twice.
    pub closed spec fn wf(&self) -> bool {
        &&& lru_capacity(self.store) == self.capacity
        &&& well_formed(self@, self.capacity as nat)
    }

    /// An empty cache for `capacity` entries that live for `ttl_secs`
    /// seconds. Room for all the entries is reserved at once, so the
    /// capacity has to be [`reservable`].
    pub fn new(ttl_secs: u32, capacity: usize) -> (cache: BoundedCache)
        requires
            reservable(capacity),
        ensures
            cache.wf(),
            cache@ == Seq::<(Seq<u8>, Seq<u8>)>::empty(),
            cache.capacity() == capacity,
            cache.ttl_secs() == ttl_secs,
    {
        BoundedCache { store: lru_with_expiry_and_capacity(ttl_secs, capacity), capacity }
    }

    /// What a well-formed cache is known to satisfy.
    pub proof fn lemma_wf(&self)
        requires
            self.wf(),
        ensures
            well_formed(self@, self.capacity()),
    {
    }

    /// Looks `key` up. Entries that have expired are dropped first; an entry
    /// that is found becomes the most recently used one.
    pub fn get(&mut self, key: &Vec<u8>) -> (found: Option<Vec<u8>>)
        requires
            old(self).wf(),
        ensures
            final(self).wf(),
            final(self).capacity() == old(self).capacity(),
            final(self).ttl_secs() == old(self).ttl_secs(),
            lookup_step(old(self)@, key@, bytes_view(found), final(self)@),
    {
        let found = lru_get(&mut self.store, key);
        proof {
            let before = old(self)@;
            let expired = choose|expired: int|
                0 <= expired <= before.len() && bytes_view(found) == value_of(
                    #[trigger] before.skip(expired),
                    key@,
                ) && self@ == touched(before.skip(expired), key@);
            lemma_skip_well_formed(before, self.capacity as nat, expired);
            lemma_touched_well_formed(before.skip(expired), key@, self.capacity as nat);
        }
        found
    }

    /// Stores `value` under `key`, in place of what was stored under it.
    /// Entries that have expired are dropped first, and a full cache gives up
    /// its least recently used entry. A cache made for no entries stays empty.
    pub fn put(&mut self, key: Vec<u8>, value: Vec<u8>)
        requires
            old(self).wf(),
        ensures
            final(self).wf(),
            final(self).capacity() == old(self).capacity(),
            final(self).ttl_secs() == old(self).ttl_secs(),
            old(self).capacity() == 0 ==> final(self)@ == old(self)@,
            old(self).capacity() >= 1 ==> store_step(
                old(self)@,
                key@,
                value@,
                old(self).capacity(),
                final(self)@,
            ),
    {
        if self.capacity == 0 {
            return ;
        }
        let ghost key_view = key@;
        let ghost value_view = value@;
        lru_insert(&mut self.store, key, value);
        proof {
            let before = old(self)@;
            let capacity = self.capacity as nat;
            let expired = choose|expired: int|
                0 <= expired <= before.len() && self@ == stored(
                    #[trigger] before.skip(expired),
                    key_view,
                    value_view,
                    capacity,
                );
            lemma_skip_well_formed(before, capacity, expired);
            lemma_stored_well_formed(before.skip(expired), key_view, value_view, capacity);
        }
    }
}

} // verus!
