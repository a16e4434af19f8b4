//! The work queue: holds the backlog of files whose classification is not
//! finished, knows which workers are idle, hands the head of the backlog to a
//! worker that asks for work, moves it to the tail, and has the file after it
//! read ahead.

use crate::files::{path_key, read_failure, FileReaderPool, PlanView, PoolView, ReadPlan};
use crate::errors::{outcome_view, ErrorClass, ErrorKind, ErrorView};
use crate::state::{
    signal_of, CompletionHandler, CompletionStatus, HandlerView, Signal, StatusView,
    DEFAULT_DEADLINE_MS,
};
use std::collections::{HashMap, VecDeque};
use vstd::prelude::*;
use vstd::string::*;

verus! {

broadcast use vstd::std_specs::hash::group_hash_axioms;

/// The number of failed attempts after which an item is tried again: with
/// more than this many, the item is given up.
pub const RETRY_CEILING: usize = 5;

/// The longest pause, in milliseconds, before a failed item is queued again.
pub const MAX_BACKOFF_MS: u64 = 32768;

/// A file that awaits classification.
#[derive(Debug)]
pub struct PendingItem {
    /// The path of the file.
    pub path: String,
    /// The number of attempts made on it so far.
    pub tries: usize,
    /// The ticket under which the submitter awaits the result.
    pub sink: u64,
}

/// Mathematical value of a [`PendingItem`].
pub struct ItemView {
    pub path: Seq<char>,
    pub tries: nat,
    pub sink: u64,
}

impl View for PendingItem {
    type V = ItemView;

    open spec fn view(&self) -> ItemView {
        ItemView { path: self.path@, tries: self.tries as nat, sink: self.sink }
    }
}

impl Clone for PendingItem {
    fn clone(&self) -> (copy: Self)
        ensures
            copy@ == self@,
    {
        PendingItem { path: self.path.clone(), tries: self.tries, sink: self.sink }
    }
}

/// A read that was started ahead of its use.
#[derive(Debug)]
pub struct Prefetch {
    /// The path that is read ahead.
    pub path: String,
    /// The index of the reader that reads it.
    pub reader: usize,
}

/// Mathematical value of a [`Prefetch`].
pub struct PrefetchView {
    pub path: Seq<char>,
    pub reader: nat,
}

impl View for Prefetch {
    type V = PrefetchView;

    open spec fn view(&self) -> PrefetchView {
        PrefetchView { path: self.path@, reader: self.reader as nat }
    }
}

/// Work handed to a worker: the item, how its bytes are obtained, and the
/// read that was started ahead for the item behind it.
#[derive(Debug)]
pub struct Dispatch {
    /// The worker that gets the item.
    pub worker: u64,
    /// The item taken from the head of the backlog.
    pub item: PendingItem,
    /// How the bytes of the item are obtained.
    pub read: ReadPlan,
    /// The read-ahead for the new head of the backlog, if there is one.
    pub prefetch: Option<Prefetch>,
}

/// Mathematical value of a [`Dispatch`].
pub struct DispatchView {
    pub worker: u64,
    pub item: ItemView,
    pub read: PlanView,
    pub prefetch: Option<PrefetchView>,
}

impl View for Dispatch {
    type V = DispatchView;

    open spec fn view(&self) -> DispatchView {
        DispatchView {
            worker: self.worker,
            item: self.item@,
            read: self.read@,
            prefetch: match self.prefetch {
                Some(p) => Some(p@),
                None => None,
            },
        }
    }
}

/// The bytes of an item on their way to a worker, under a supervisor.
#[derive(Debug)]
pub struct WorkOrder {
    /// The worker that works on the bytes.
    pub worker: u64,
    /// The bytes of the item.
    pub email: Vec<u8>,
    /// The item that the bytes belong to.
    pub item: PendingItem,
    /// The supervisor that guards the work.
    pub handler: CompletionHandler,
}

/// The view of an optional item.
pub open spec fn item_view(item: Option<PendingItem>) -> Option<ItemView> {
    match item {
        Some(item) => Some(item@),
        None => None,
    }
}

/// The view of an optional dispatch.
pub open spec fn dispatch_view(out: Option<Dispatch>) -> Option<DispatchView> {
    match out {
        Some(d) => Some(d@),
        None => None,
    }
}

/// A worker and the one dispatch it may have outstanding: a worker without
/// a job is idle.
pub struct SlotView {
    pub id: u64,
    pub job: Option<ItemView>,
}

/// Mathematical value of an [`EmailReader`].
pub struct QueueView {
    /// The items that are not finished, in the order in which they are
    /// handed out.
    pub backlog: Seq<ItemView>,
    /// The workers, each with its outstanding dispatch.
    pub slots: Seq<SlotView>,
    /// The pool that reads the files.
    pub pool: PoolView,
}

impl QueueView {
    /// Whether `id` is one of the queue's workers.
    pub open spec fn knows(self, id: u64) -> bool {
        exists|i: int| 0 <= i < self.slots.len() && self.slots[i].id == id
    }

    /// The place of worker `id` among the workers.
    pub open spec fn slot_of(self, id: u64) -> int {
        choose|i: int| 0 <= i < self.slots.len() && self.slots[i].id == id
    }

    /// No two workers share an identifier.
    pub open spec fn distinct_workers(self) -> bool {
        forall|i: int, j: int|
            0 <= i < self.slots.len() && 0 <= j < self.slots.len() && i != j ==> self.slots[i].id
                != self.slots[j].id
    }

    /// The dispatch that worker `id` has outstanding, if any.
    pub open spec fn outstanding(self, id: u64) -> Option<ItemView> {
        if self.knows(id) {
            self.slots[self.slot_of(id)].job
        } else {
            None
        }
    }

    /// Whether worker `id` is in the idle set.
    pub open spec fn is_idle(self, id: u64) -> bool {
        self.knows(id) && self.slots[self.slot_of(id)].job is None
    }

    /// The idle set: the workers without an outstanding dispatch.
    pub open spec fn idle_set(self) -> Set<u64> {
        Set::new(|id: u64| self.is_idle(id))
    }

    /// The number of workers before the first idle one; the number of
    /// workers where none is idle.
    pub open spec fn first_idle(self) -> int
        decreases self.slots.len(),
    {
        if self.slots.len() == 0 {
            0
        } else if self.slots[0].job is None {
            0
        } else {
            1 + (QueueView { slots: self.slots.drop_first(), ..self }).first_idle()
        }
    }

    /// Whether some worker is idle.
    pub open spec fn has_idle(self) -> bool {
        self.first_idle() < self.slots.len()
    }

    /// The queue without the items that were submitted under the ticket
    /// `sink`.
    pub open spec fn without(self, sink: u64) -> QueueView {
        QueueView { backlog: without_sink(self.backlog, sink), ..self }
    }

    /// The queue with `item` added at the tail of the backlog.
    pub open spec fn enqueued(self, item: ItemView) -> QueueView {
        QueueView { backlog: self.backlog.push(item), ..self }
    }

    /// The queue with `job` as what worker `id` has outstanding.
    pub open spec fn with_job(self, id: u64, job: Option<ItemView>) -> QueueView {
        QueueView {
            slots: self.slots.update(self.slot_of(id), SlotView { id, job }),
            ..self
        }
    }

    /// The read-ahead that goes with a dispatch from this queue: for the
    /// item behind the head, by the reader whose turn it is.
    pub open spec fn read_ahead(self) -> Option<PrefetchView> {
        if self.backlog.len() > 1 {
            Some(PrefetchView { path: self.backlog[1].path, reader: self.pool.next })
        } else {
            None
        }
    }

    /// Worker `id` asks for work, gets `out`, and leaves the queue as `after`.
    ///
    /// A worker that the queue does not know changes nothing. With an empty
    /// backlog the worker becomes idle. Otherwise the head of the backlog
    /// goes to its tail and becomes the worker's outstanding dispatch, the
    /// item behind it is read ahead, and the bytes of the head are requested
    /// from the pool.
    pub open spec fn request_step(self, id: u64, out: Option<DispatchView>, after: QueueView) -> bool {
        if !self.knows(id) {
            out is None && after == self
        } else if self.backlog.len() == 0 {
            out is None && after == self.with_job(id, None)
        } else {
            let head = self.backlog[0];
            let pool = if self.backlog.len() > 1 {
                self.pool.advanced()
            } else {
                self.pool
            };
            &&& out matches Some(d)
            &&& d.worker == id
            &&& d.item == head
            &&& d.prefetch == self.read_ahead()
            &&& pool.read_step(path_key(head.path), d.read, after.pool)
            &&& after == QueueView {
                backlog: self.backlog.drop_first().push(head),
                slots: self.with_job(id, Some(head)).slots,
                pool: after.pool,
            }
        }
    }

    /// `item` is submitted, which hands `out` to a worker and leaves the
    /// queue as `after`: the item joins the tail of the backlog, and if a
    /// worker is idle, the first idle worker at once asks for work.
    pub open spec fn submit_step(self, item: ItemView, out: Option<DispatchView>, after: QueueView) -> bool {
        let queued = self.enqueued(item);
        if self.has_idle() {
            queued.request_step(self.slots[self.first_idle()].id, out, after)
        } else {
            out is None && after == queued
        }
    }
}

/// The items of `items` that were not submitted under the ticket `sink`, in
/// their order.
pub open spec fn without_sink(items: Seq<ItemView>, sink: u64) -> Seq<ItemView>
    decreases items.len(),
{
    if items.len() == 0 {
        items
    } else if items.last().sink == sink {
        without_sink(items.drop_last(), sink)
    } else {
        without_sink(items.drop_last(), sink).push(items.last())
    }
}

/// Whether some item of `items` was submitted under the ticket `sink`.
pub open spec fn holds_sink(items: Seq<ItemView>, sink: u64) -> bool {
    exists|i: int| 0 <= i < items.len() && items[i].sink == sink
}

/// The identifiers of `ids` without repetitions, each at its first place.
pub open spec fn distinct_ids(ids: Seq<u64>) -> Seq<u64>
    decreases ids.len(),
{
    if ids.len() == 0 {
        Seq::empty()
    } else {
        let before = distinct_ids(ids.drop_last());
        if before.contains(ids.last()) {
            before
        } else {
            before.push(ids.last())
        }
    }
}

/// The pause before a failed item is queued again: two to the power of the
/// attempts made, in milliseconds, up to [`MAX_BACKOFF_MS`].
pub open spec fn backoff(tries: nat) -> nat
    decreases tries,
{
    if tries == 0 {
        1
    } else if 2 * backoff((tries - 1) as nat) >= MAX_BACKOFF_MS {
        MAX_BACKOFF_MS as nat
    } else {
        2 * backoff((tries - 1) as nat)
    }
}

/// Computes [`backoff`].
pub fn backoff_ms(tries: usize) -> (ms: u64)
    ensures
        ms == backoff(tries as nat),
        1 <= ms <= MAX_BACKOFF_MS,
{
    let mut ms: u64 = 1;
    let mut done: usize = 0;
    while done < tries && ms < MAX_BACKOFF_MS
        invariant
            done <= tries,
            1 <= ms <= MAX_BACKOFF_MS,
            ms == backoff(done as nat),
        decreases tries - done,
    {
        if ms >= MAX_BACKOFF_MS / 2 {
            ms = MAX_BACKOFF_MS;
        } else {
            ms = 2 * ms;
        }
        done = done + 1;
    }
    proof {
        if done < tries {
            lemma_backoff_stays_capped(done as nat, tries as nat);
        }
    }
    ms
}

/// Once the pause has reached its cap, it stays there.
pub proof fn lemma_backoff_stays_capped(reached: nat, tries: nat)
    requires
        backoff(reached) == MAX_BACKOFF_MS,
        reached <= tries,
    ensures
        backoff(tries) == MAX_BACKOFF_MS,
    decreases tries - reached,
{
    if reached < tries {
        lemma_backoff_stays_capped(reached, (tries - 1) as nat);
    }
}

/// The owner of the backlog and of the idle set.
pub struct EmailReader {
    file_names: VecDeque<PendingItem>,
    workers: HashMap<u64, Option<PendingItem>>,
    roster: Vec<u64>,
    file_reader: FileReaderPool,
}

impl View for EmailReader {
    type V = QueueView;

    closed spec fn view(&self) -> QueueView {
        QueueView {
            backlog: self.file_names@.map_values(|item: PendingItem| item@),
            slots: self.roster@.map_values(
                |id: u64| SlotView { id, job: item_view(self.workers@[id]) },
            ),
            pool: self.file_reader@,
        }
    }
}

impl EmailReader {
    /// The roster names each worker once, the workers on the roster are those
    /// that have a slot, and the pool is in order.
    pub closed spec fn wf(&self) -> bool {
        &&& self.roster@.no_duplicates()
        &&& forall|id: u64| self.workers@.contains_key(id) <==> self.roster@.contains(id)
        &&& self.file_reader.wf()
    }

    /// What a well-formed queue is known to satisfy.
    pub proof fn lemma_wf(&self)
        requires
            self.wf(),
        ensures
            self@.distinct_workers(),
    {
        let slots = self@.slots;
        assert forall|i: int, j: int|
            0 <= i < slots.len() && 0 <= j < slots.len() && i != j implies slots[i].id
            != slots[j].id by {
            assert(slots[i].id == self.roster@[i]);
            assert(slots[j].id == self.roster@[j]);
        }
    }

    /// A queue with an empty backlog for the workers `workers`, all of them
    /// idle, that reads files through `file_reader`. An identifier that is
    /// given twice counts once.
    pub fn new(workers: Vec<u64>, file_reader: FileReaderPool) -> (queue: EmailReader)
        requires
            file_reader.wf(),
        ensures
            queue.wf(),
            queue@.backlog == Seq::<ItemView>::empty(),
            queue@.pool == file_reader@,
            queue@.slots == distinct_ids(workers@).map_values(
                |id: u64| SlotView { id, job: None },
            ),
    {
        let mut roster: Vec<u64> = Vec::new();
        let mut slots: HashMap<u64, Option<PendingItem>> = HashMap::new();
        let mut i: usize = 0;
        assert(workers@.take(0) == Seq::<u64>::empty());
        while i < workers.len()
            invariant
                i <= workers.len(),
                roster@ == distinct_ids(workers@.take(i as int)),
                forall|id: u64| slots@.contains_key(id) <==> roster@.contains(id),
                forall|id: u64| slots@.contains_key(id) ==> slots@[id] is None,
            decreases workers.len() - i,
        {
            let id = workers[i];
            let ghost seen = roster@;
            proof {
                assert(workers@.take(i + 1).drop_last() == workers@.take(i as int));
                assert(workers@.take(i + 1).last() == id);
            }
            if !slots.contains_key(&id) {
                let _ = slots.insert(id, None);
                roster.push(id);
                proof {
                    assert forall|other: u64| slots@.contains_key(other) <==> roster@.contains(
                        other,
                    ) by {
                        if seen.contains(other) {
                            let k = choose|k: int| 0 <= k < seen.len() && seen[k] == other;
                            assert(roster@[k] == other);
                        }
                        if other == id {
                            assert(roster@[seen.len() as int] == other);
                        }
                        if roster@.contains(other) {
                            let k = choose|k: int| 0 <= k < roster@.len() && roster@[k] == other;
                            if k < seen.len() {
                                assert(seen[k] == other);
                            }
                        }
                    }
                }
            }
            i = i + 1;
        }
        assert(workers@.take(workers.len() as int) == workers@);
        let queue = EmailReader { file_names: VecDeque::new(), workers: slots, roster, file_reader };
        proof {
            lemma_distinct_ids(workers@);
            assert(queue@.backlog == Seq::<ItemView>::empty());
            let wanted = distinct_ids(workers@).map_values(|id: u64| SlotView { id, job: None });
            assert(queue@.slots.len() == wanted.len());
            assert forall|k: int| 0 <= k < wanted.len() implies queue@.slots[k] == wanted[k] by {
                assert(queue.roster@.contains(queue.roster@[k]));
            }
            assert(queue@.slots =~= wanted);
        }
        queue
    }

    /// The number of items in the backlog.
    pub fn backlog_len(&self) -> (n: usize)
        ensures
            n == self@.backlog.len(),
    {
        self.file_names.len()
    }

    /// Whether worker `id` is idle.
    pub fn is_idle(&self, id: u64) -> (idle: bool)
        requires
            self.wf(),
        ensures
            idle == self@.is_idle(id),
    {
        if !self.knows(id) {
            return false;
        }
        match self.workers.get(&id) {
            Some(job) => job.is_none(),
            None => false,
        }
    }

    /// Whether `id` is one of the workers; if it is, its slot is the one
    /// that the map of workers holds for it.
    fn knows(&self, id: u64) -> (known: bool)
        requires
            self.wf(),
        ensures
            known == self@.knows(id),
            known ==> self.workers@.contains_key(id) && self.roster@[self@.slot_of(id)] == id
                && self@.slots[self@.slot_of(id)] == (SlotView {
                id,
                job: item_view(self.workers@[id]),
            }),
    {
        let known = self.workers.contains_key(&id);
        proof {
            let slots = self@.slots;
            assert(known == self.workers@.contains_key(id));
            if known {
                assert(self.roster@.contains(id));
                let k = choose|k: int| 0 <= k < self.roster@.len() && self.roster@[k] == id;
                assert(slots[k].id == id);
                let at = self@.slot_of(id);
                assert(slots[at].id == self.roster@[at]);
            } else if self@.knows(id) {
                let k = choose|k: int| 0 <= k < slots.len() && slots[k].id == id;
                assert(self.roster@[k] == id);
                assert(self.roster@.contains(id));
            }
        }
        known
    }

    /// The first idle worker, if there is one.
    fn find_idle(&self) -> (idle: Option<u64>)
        requires
            self.wf(),
        ensures
            match idle {
                Some(id) => self@.has_idle() && id == self@.slots[self@.first_idle()].id,
                None => !self@.has_idle(),
            },
    {
        let mut i: usize = 0;
        let ghost all = self@;
        assert(all.slots.skip(0) == all.slots);
        while i < self.roster.len()
            invariant
                self.wf(),
                i <= self.roster.len(),
                all == self@,
                all.slots.len() == self.roster.len(),
                all.first_idle() == i + (QueueView {
                    slots: all.slots.skip(i as int),
                    ..all
                }).first_idle(),
            decreases self.roster.len() - i,
        {
            let ghost rest = QueueView { slots: all.slots.skip(i as int), ..all };
            let id = self.roster[i];
            proof {
                assert(rest.slots[0] == all.slots[i as int]);
                assert(all.slots[i as int].id == id);
                assert(self.roster@.contains(id));
            }
            match self.workers.get(&id) {
                Some(job) => {
                    if job.is_none() {
                        return Some(id);
                    }
                },
                None => {
                    assert(false);
                },
            }
            assert(rest.slots.drop_first() == all.slots.skip(i + 1));
            i = i + 1;
        }
        None
    }

    /// Records `job` as what worker `id` has outstanding.
    fn assign(&mut self, id: u64, job: Option<PendingItem>)
        requires
            old(self).wf(),
            old(self)@.knows(id),
        ensures
            final(self).wf(),
            final(self)@ == old(self)@.with_job(id, item_view(job)),
    {
        let ghost job_view = item_view(job);
        let _ = self.knows(id);
        let _ = self.workers.insert(id, job);
        proof {
            let at = old(self)@.slot_of(id);
            let slots = self@.slots;
            let expected = old(self)@.slots.update(at, SlotView { id, job: job_view });
            assert(self.workers@.dom() =~= old(self).workers@.dom());
            assert forall|k: int| 0 <= k < slots.len() implies slots[k] == expected[k] by {
                if k != at {
                    assert(self.roster@[k] != self.roster@[at]);
                }
            }
            assert(slots =~= expected);
            assert(self@.backlog == old(self)@.backlog);
        }
    }

    /// Worker `id` asks for the next file.
    ///
    /// With an empty backlog the worker joins the idle set and nothing is
    /// handed out: this is how the queue drains. Otherwise the head of the
    /// backlog is handed to the worker, which leaves the idle set, and goes to
    /// the tail of the backlog, where it stays until it is finished; the item
    /// behind the head is read ahead, and the bytes of the head are requested
    /// from the pool. A worker that the queue does not know gets nothing and
    /// changes nothing.
    pub fn request_next_file(&mut self, id: u64) -> (out: Option<Dispatch>)
        requires
            old(self).wf(),
        ensures
            final(self).wf(),
            old(self)@.request_step(id, dispatch_view(out), final(self)@),
    {
        if !self.knows(id) {
            return None;
        }
        let ghost before = self@;
        let item = match self.file_names.pop_front() {
            Some(item) => item,
            None => {
                self.assign(id, None);
                assert(self@.backlog =~= before.backlog);
                return None;
            },
        };
        proof {
            assert(before.backlog[0] == item@);
            assert(self@.backlog =~= before.backlog.drop_first());
        }
        let prefetch = self.fetch_next();
        let read = self.file_reader.read_file(item.path.as_str());
        self.file_names.push_back(item.clone());
        assert(self@.backlog =~= before.backlog.drop_first().push(item@));
        self.assign(id, Some(item.clone()));
        Some(Dispatch { worker: id, item, read, prefetch })
    }

    /// Has the head of the backlog read ahead, so that its bytes are cached
    /// by the time a worker asks for it. The head stays where it is.
    pub fn fetch_next(&mut self) -> (ahead: Option<Prefetch>)
        requires
            old(self).wf(),
        ensures
            final(self).wf(),
            match ahead {
                Some(p) => {
                    &&& old(self)@.backlog.len() > 0
                    &&& p@ == (PrefetchView {
                        path: old(self)@.backlog[0].path,
                        reader: old(self)@.pool.next,
                    })
                    &&& final(self)@ == (QueueView {
                        pool: old(self)@.pool.advanced(),
                        ..old(self)@
                    })
                },
                None => old(self)@.backlog.len() == 0 && final(self)@ == old(self)@,
            },
    {
        if self.file_names.len() == 0 {
            return None;
        }
        assert(self@.backlog[0] == self.file_names@[0]@);
        let path = self.file_names[0].path.clone();
        let reader = self.file_reader.prefetch(path.as_str());
        Some(Prefetch { path, reader })
    }

    /// Queues `path` again after `tries` failed attempts: the item takes
    /// the place of what was queued under its ticket, at the tail of the
    /// backlog, and worker `id` asks for its next file.
    pub fn retry_file_by_path(&mut self, id: u64, path: String, sink: u64, tries: usize) -> (out:
        Option<Dispatch>)
        requires
            old(self).wf(),
        ensures
            final(self).wf(),
            old(self)@.without(sink).enqueued(
                ItemView { path: path@, tries: tries as nat, sink },
            ).request_step(id, dispatch_view(out), final(self)@),
    {
        let ghost item = ItemView { path: path@, tries: tries as nat, sink };
        let _ = self.remove_file(sink);
        let ghost before = self@;
        self.file_names.push_back(PendingItem { path, tries, sink });
        proof {
            assert(self@.backlog =~= before.backlog.push(item));
            assert(self@ == before.enqueued(item));
        }
        self.request_next_file(id)
    }

    /// Takes the items that were submitted under the ticket `sink` out of
    /// the backlog, for good: this is what becomes of an item that has
    /// succeeded, was aborted or was given up. Says whether there was one.
    pub fn remove_file(&mut self, sink: u64) -> (removed: bool)
        requires
            old(self).wf(),
        ensures
            final(self).wf(),
            final(self)@ == old(self)@.without(sink),
            removed == holds_sink(old(self)@.backlog, sink),
    {
        let ghost before = self@;
        let total = self.file_names.len();
        let mut kept: VecDeque<PendingItem> = VecDeque::new();
        let ghost mut done: int = 0;
        assert(before.backlog.skip(0) =~= before.backlog);
        assert(before.backlog.take(0) =~= Seq::<ItemView>::empty());
        while self.file_names.len() > 0
            invariant
                self.wf(),
                self@.slots == before.slots,
                self@.pool == before.pool,
                0 <= done <= before.backlog.len(),
                total == before.backlog.len(),
                self@.backlog == before.backlog.skip(done),
                kept@.map_values(|item: PendingItem| item@) == without_sink(
                    before.backlog.take(done),
                    sink,
                ),
            decreases self.file_names.len(),
        {
            let ghost rest = self@.backlog;
            let ghost seen = kept@.map_values(|item: PendingItem| item@);
            assert(rest.len() == self.file_names@.len());
            let item = self.file_names.pop_front().unwrap();
            proof {
                assert(done < before.backlog.len());
                assert(rest[0] == item@);
                assert(rest[0] == before.backlog[done]);
                assert(self@.backlog =~= rest.drop_first());
                assert(self@.backlog =~= before.backlog.skip(done + 1));
                assert(before.backlog.take(done + 1).drop_last() =~= before.backlog.take(done));
                assert(before.backlog.take(done + 1).last() == item@);
            }
            if item.sink != sink {
                kept.push_back(item);
                assert(kept@.map_values(|item: PendingItem| item@) =~= seen.push(item@));
            }
            proof {
                done = done + 1;
            }
        }
        proof {
            assert(before.backlog.take(done) =~= before.backlog);
            lemma_without_sink(before.backlog, sink);
        }
        let removed = kept.len() < total;
        self.file_names = kept;
        removed
    }

    /// Worker `id` has finished the item that was submitted under the
    /// ticket `sink`: the item leaves the backlog for good, and the worker
    /// asks for its next file.
    pub fn finish_file(&mut self, id: u64, sink: u64) -> (out: Option<Dispatch>)
        requires
            old(self).wf(),
        ensures
            final(self).wf(),
            old(self)@.without(sink).request_step(id, dispatch_view(out), final(self)@),
    {
        let _ = self.remove_file(sink);
        self.request_next_file(id)
    }

    /// Submits `path` for classification: it joins the tail of the backlog
    /// as an item without attempts. If a worker is idle, the first idle
    /// worker asks for its next file at once, so that new work does not wait
    /// for a worker to ask by itself.
    pub fn add_file(&mut self, path: String, sink: u64) -> (out: Option<Dispatch>)
        requires
            old(self).wf(),
        ensures
            final(self).wf(),
            old(self)@.submit_step(
                ItemView { path: path@, tries: 0, sink },
                dispatch_view(out),
                final(self)@,
            ),
    {
        let ghost before = self@;
        let ghost item = ItemView { path: path@, tries: 0, sink };
        let idle = self.find_idle();
        self.file_names.push_back(PendingItem { path, tries: 0, sink });
        proof {
            assert(self@.backlog =~= before.backlog.push(item));
            assert(self@ == before.enqueued(item));
        }
        match idle {
            Some(id) => {
                let ghost queued = self@;
                proof {
                    lemma_first_idle(before);
                    assert(queued.slots[before.first_idle()].id == id);
                    assert(queued.knows(id));
                }
                self.request_next_file(id)
            },
            None => {
                proof {
                    lemma_first_idle(before);
                }
                None
            },
        }
    }

    /// The supervisor for a dispatch of `item`: it carries the attempts made
    /// on the item so far and has the default deadline. There is none for an
    /// item whose attempts cannot be counted any further.
    pub fn gen_completion_handler(item: &PendingItem) -> (guard: Option<CompletionHandler>)
        ensures
            match guard {
                Some(handler) => {
                    &&& item@.tries < usize::MAX
                    &&& handler.wf()
                    &&& handler@ == (HandlerView {
                        tries: item@.tries,
                        deadline_ms: DEFAULT_DEADLINE_MS as nat,
                        settled: false,
                    })
                },
                None => item@.tries == usize::MAX,
            },
    {
        if item.tries < usize::MAX {
            Some(CompletionHandler::new(item.tries))
        } else {
            None
        }
    }

    /// Routes the bytes `work` to worker `id`: a worker with a dispatch
    /// outstanding gets them as a work order, together with the item they
    /// belong to and the supervisor that guards the work on them. For any
    /// other worker there is no order, and the bytes are dropped.
    pub fn send_work_by_id(&self, work: Vec<u8>, id: u64) -> (order: Option<WorkOrder>)
        requires
            self.wf(),
        ensures
            match order {
                Some(order) => {
                    &&& self@.outstanding(id) == Some(order.item@)
                    &&& order.worker == id
                    &&& order.email@ == work@
                    &&& order.item@.tries < usize::MAX
                    &&& order.handler.wf()
                    &&& order.handler@ == (HandlerView {
                        tries: order.item@.tries,
                        deadline_ms: DEFAULT_DEADLINE_MS as nat,
                        settled: false,
                    })
                },
                None => match self@.outstanding(id) {
                    Some(item) => item.tries == usize::MAX,
                    None => true,
                },
            },
    {
        if !self.knows(id) {
            return None;
        }
        match self.workers.get(&id) {
            Some(Some(item)) => {
                match Self::gen_completion_handler(item) {
                    Some(handler) => Some(
                        WorkOrder { worker: id, email: work, item: item.clone(), handler },
                    ),
                    None => None,
                }
            },
            _ => None,
        }
    }

    /// Takes the result of a read of `path`: content is cached and handed
    /// on; a read that failed is a permanent failure of that path.
    pub fn file_read(&mut self, path: &str, content: Option<Vec<u8>>) -> (result: Result<
        Vec<u8>,
        ErrorKind,
    >)
        requires
            old(self).wf(),
        ensures
            final(self).wf(),
            final(self)@ == (QueueView { pool: final(self)@.pool, ..old(self)@ }),
            match content {
                Some(bytes) => {
                    &&& old(self)@.pool.cache_step(path_key(path@), bytes@, final(self)@.pool)
                    &&& result matches Ok(handed)
                    &&& handed@ == bytes@
                },
                None => {
                    &&& final(self)@ == old(self)@
                    &&& result matches Err(e)
                    &&& e@ == read_failure()
                },
            },
    {
        self.file_reader.finish_read(path, content)
    }

    /// Caches the bytes that a reader has read for `path`.
    pub fn cache_file(&mut self, path: &str, email: Vec<u8>)
        requires
            old(self).wf(),
        ensures
            final(self).wf(),
            old(self)@.pool.cache_step(path_key(path@), email@, final(self)@.pool),
            final(self)@ == (QueueView { pool: final(self)@.pool, ..old(self)@ }),
    {
        self.file_reader.cache_file(path, email);
    }
}

/// The list without repetitions holds no identifier twice, and holds the
/// identifiers of the list it was made from.
pub proof fn lemma_distinct_ids(ids: Seq<u64>)
    ensures
        distinct_ids(ids).no_duplicates(),
        forall|id: u64| distinct_ids(ids).contains(id) <==> ids.contains(id),
    decreases ids.len(),
{
    if ids.len() > 0 {
        let front = ids.drop_last();
        lemma_distinct_ids(front);
        let before = distinct_ids(front);
        assert forall|id: u64| distinct_ids(ids).contains(id) <==> ids.contains(id) by {
            if ids.contains(id) {
                let k = choose|k: int| 0 <= k < ids.len() && ids[k] == id;
                if k < ids.len() - 1 {
                    assert(front[k] == id);
                    assert(front.contains(id));
                    assert(before.contains(id));
                    if !before.contains(ids.last()) {
                        let m = choose|m: int| 0 <= m < before.len() && before[m] == id;
                        assert(before.push(ids.last())[m] == id);
                    }
                } else {
                    if !before.contains(ids.last()) {
                        assert(before.push(ids.last())[before.len() as int] == id);
                    }
                }
            }
            if distinct_ids(ids).contains(id) {
                let m = choose|m: int|
                    0 <= m < distinct_ids(ids).len() && distinct_ids(ids)[m] == id;
                if m < before.len() {
                    assert(before[m] == id);
                    assert(before.contains(id));
                    assert(front.contains(id));
                    let k = choose|k: int| 0 <= k < front.len() && front[k] == id;
                    assert(ids[k] == id);
                } else {
                    assert(ids[ids.len() - 1] == id);
                }
            }
        }
    }
}

/// What is left when the items of a ticket are taken out holds nothing of
/// that ticket, and is shorter exactly if there was such an item: each
/// removal of a finished item brings the backlog nearer to empty.
pub proof fn lemma_without_sink(items: Seq<ItemView>, sink: u64)
    ensures
        without_sink(items, sink).len() <= items.len(),
        without_sink(items, sink).len() < items.len() <==> holds_sink(items, sink),
        !holds_sink(without_sink(items, sink), sink),
    decreases items.len(),
{
    if items.len() > 0 {
        let front = items.drop_last();
        let left = without_sink(front, sink);
        lemma_without_sink(front, sink);
        if holds_sink(front, sink) {
            let i = choose|i: int| 0 <= i < front.len() && front[i].sink == sink;
            assert(items[i].sink == sink);
        }
        if items.last().sink == sink {
            assert(items[items.len() - 1].sink == sink);
        } else {
            if holds_sink(items, sink) {
                let i = choose|i: int| 0 <= i < items.len() && items[i].sink == sink;
                assert(front[i].sink == sink);
            }
            let all = left.push(items.last());
            if holds_sink(all, sink) {
                let j = choose|j: int| 0 <= j < all.len() && all[j].sink == sink;
                if j < left.len() {
                    assert(left[j].sink == sink);
                }
            }
        }
    }
}

/// Where no worker is idle, every worker has a dispatch outstanding; where
/// one is, the first idle worker is idle and those before it are not.
pub proof fn lemma_first_idle(q: QueueView)
    ensures
        0 <= q.first_idle() <= q.slots.len(),
        q.has_idle() ==> q.slots[q.first_idle()].job is None,
        forall|i: int| 0 <= i < q.first_idle() ==> (#[trigger] q.slots[i]).job is Some,
    decreases q.slots.len(),
{
    if q.slots.len() > 0 && q.slots[0].job is Some {
        let rest = QueueView { slots: q.slots.drop_first(), ..q };
        lemma_first_idle(rest);
        assert forall|i: int| 0 <= i < q.first_idle() implies (#[trigger] q.slots[i]).job
            is Some by {
            if i > 0 {
                assert(rest.slots[i - 1] == q.slots[i]);
            }
        }
    }
}

/// What follows the outcome of a dispatch.
#[derive(Debug)]
pub struct Verdict {
    /// The pause before the worker moves on, in milliseconds.
    pub delay_ms: u64,
    /// The result for the submitter, where the item is finished.
    pub deliver: Option<Result<bool, ErrorKind>>,
    /// The attempts with which the item is queued again; without them the
    /// worker asks for its next file.
    pub retry: Option<usize>,
}

/// Mathematical value of a [`Verdict`].
pub struct VerdictView {
    pub delay_ms: nat,
    pub deliver: Option<Result<bool, ErrorView>>,
    pub retry: Option<nat>,
}

impl View for Verdict {
    type V = VerdictView;

    open spec fn view(&self) -> VerdictView {
        VerdictView {
            delay_ms: self.delay_ms as nat,
            deliver: match self.deliver {
                Some(outcome) => Some(outcome_view(outcome)),
                None => None,
            },
            retry: match self.retry {
                Some(tries) => Some(tries as nat),
                None => None,
            },
        }
    }
}

/// The view of an optional verdict.
pub open spec fn verdict_view(verdict: Option<Verdict>) -> Option<VerdictView> {
    match verdict {
        Some(v) => Some(v@),
        None => None,
    }
}

/// The view of what reaches a supervisor of a prediction: the result of the
/// prediction, or nothing when the deadline passed.
pub open spec fn event_view(event: Option<Result<bool, ErrorKind>>) -> Option<
    Result<bool, ErrorView>,
> {
    match event {
        Some(outcome) => Some(outcome_view(outcome)),
        None => None,
    }
}

/// The signal that an event amounts to.
pub open spec fn event_signal(event: Option<Result<bool, ErrorView>>) -> Signal {
    match event {
        Some(outcome) => signal_of(outcome),
        None => Signal::Timeout,
    }
}

/// The failure with which an item is given up after too many attempts.
pub open spec fn gave_up(path: Seq<char>) -> ErrorView {
    ErrorView {
        class: ErrorClass::Unclassified,
        reason: "Repeatedly failed to predict for path "@ + path,
    }
}

/// What follows the outcome `status` of a dispatch of `path`, where
/// `prediction` is what the worker predicted, if it did.
///
/// Success and abort finish the item. After a retry with more than
/// [`RETRY_CEILING`] attempts made the item is given up at once, with a
/// failure of its own; otherwise it is queued again after a pause, with the
/// attempts counted.
pub open spec fn verdict_of(status: StatusView, prediction: bool, path: Seq<char>) -> VerdictView {
    match status {
        StatusView::Success => VerdictView {
            delay_ms: 0,
            deliver: Some(Ok(prediction)),
            retry: None,
        },
        StatusView::Abort(cause) => VerdictView {
            delay_ms: 0,
            deliver: Some(Err(cause)),
            retry: None,
        },
        StatusView::Retry(cause, tries) => if tries > RETRY_CEILING {
            VerdictView { delay_ms: 0, deliver: Some(Err(gave_up(path))), retry: None }
        } else {
            VerdictView { delay_ms: backoff(tries), deliver: None, retry: Some(tries) }
        },
    }
}

/// What the worker predicted, where the event is a prediction.
pub open spec fn predicted(event: Option<Result<bool, ErrorView>>) -> bool {
    match event {
        Some(Ok(prediction)) => prediction,
        _ => false,
    }
}

/// What follows `event` when it reaches the supervisor `handler` of a
/// dispatch of `path`: nothing if the supervisor has settled before.
pub open spec fn judged(handler: HandlerView, path: Seq<char>, event: Option<
    Result<bool, ErrorView>,
>) -> Option<VerdictView> {
    match handler.emits(event_signal(event)) {
        Some(status) => Some(verdict_of(status, predicted(event), path)),
        None => None,
    }
}

/// Takes what has come of a dispatch of `path` to its supervisor, and says
/// what follows. The event is the result of the prediction, or nothing when
/// the deadline has passed without one. An event that reaches a supervisor
/// which has settled is ignored.
pub fn settle(handler: &mut CompletionHandler, path: &str, event: Option<
    Result<bool, ErrorKind>,
>) -> (verdict: Option<Verdict>)
    requires
        old(handler).wf(),
    ensures
        final(handler)@ == old(handler)@.settle(),
        verdict_view(verdict) == judged(old(handler)@, path@, event_view(event)),
{
    let prediction = match &event {
        Some(Ok(prediction)) => *prediction,
        _ => false,
    };
    let status = match event {
        Some(outcome) => handler.report(outcome),
        None => handler.on_timeout(),
    };
    match status {
        None => None,
        Some(CompletionStatus::Success) => Some(
            Verdict { delay_ms: 0, deliver: Some(Ok(prediction)), retry: None },
        ),
        Some(CompletionStatus::Abort(cause)) => Some(
            Verdict { delay_ms: 0, deliver: Some(Err(cause)), retry: None },
        ),
        Some(CompletionStatus::Retry(_, tries)) => {
            if tries > RETRY_CEILING {
                let reason = String::from_str("Repeatedly failed to predict for path ").concat(
                    path,
                );
                Some(Verdict { delay_ms: 0, deliver: Some(Err(ErrorKind::Msg(reason))), retry: None })
            } else {
                Some(Verdict { delay_ms: backoff_ms(tries), deliver: None, retry: Some(tries) })
            }
        },
    }
}

/// The result that the submitter of `path` gets when its dispatches end as
/// `outcomes` say, one after the other, the first of them after `tries`
/// earlier attempts; nothing while the item is still to be tried again.
pub open spec fn concluded(outcomes: Seq<Result<bool, ErrorView>>, tries: nat, path: Seq<char>) -> Option<
    Result<bool, ErrorView>,
>
    decreases outcomes.len(),
{
    if outcomes.len() == 0 {
        None
    } else {
        let fresh = HandlerView { tries, deadline_ms: DEFAULT_DEADLINE_MS as nat, settled: false };
        let verdict = verdict_of(
            fresh.status_for(signal_of(outcomes[0])),
            predicted(Some(outcomes[0])),
            path,
        );
        match verdict.retry {
            Some(next) => concluded(outcomes.drop_first(), next, path),
            None => verdict.deliver,
        }
    }
}

/// The number of dispatches of an item that `outcomes` account for before
/// the item is finished.
pub open spec fn attempts(outcomes: Seq<Result<bool, ErrorView>>, tries: nat, path: Seq<char>) -> nat
    decreases outcomes.len(),
{
    if outcomes.len() == 0 {
        0
    } else {
        let fresh = HandlerView { tries, deadline_ms: DEFAULT_DEADLINE_MS as nat, settled: false };
        let verdict = verdict_of(
            fresh.status_for(signal_of(outcomes[0])),
            predicted(Some(outcomes[0])),
            path,
        );
        match verdict.retry {
            Some(next) => 1 + attempts(outcomes.drop_first(), next, path),
            None => 1,
        }
    }
}

/// Whether an outcome is a failure that allows another attempt.
pub open spec fn transient(outcome: Result<bool, ErrorView>) -> bool {
    match outcome {
        Ok(_) => false,
        Err(e) => e.retryable(),
    }
}

/// Whether every outcome is a failure that allows another attempt.
pub open spec fn all_transient(outcomes: Seq<Result<bool, ErrorView>>) -> bool {
    forall|i: int| 0 <= i < outcomes.len() ==> transient(#[trigger] outcomes[i])
}

/// The retry ceiling: an item whose dispatches all fail transiently is
/// queued again after each of the first [`RETRY_CEILING`] failures, and is
/// given up with a failure of its own at the next one. No item is dispatched
/// more often than that.
pub proof fn lemma_retry_ceiling(outcomes: Seq<Result<bool, ErrorView>>, tries: nat, path: Seq<char>)
    requires
        all_transient(outcomes),
        tries <= RETRY_CEILING,
    ensures
        outcomes.len() + tries <= RETRY_CEILING ==> concluded(outcomes, tries, path) is None,
        outcomes.len() + tries > RETRY_CEILING ==> concluded(outcomes, tries, path) == Some(
            Err::<bool, ErrorView>(gave_up(path)),
        ) && attempts(outcomes, tries, path) == RETRY_CEILING + 1 - tries,
    decreases outcomes.len(),
{
    if outcomes.len() > 0 {
        let rest = outcomes.drop_first();
        assert(transient(outcomes[0]));
        assert forall|i: int| 0 <= i < rest.len() implies transient(#[trigger] rest[i]) by {
            assert(rest[i] == outcomes[i + 1]);
        }
        if tries + 1 <= RETRY_CEILING {
            lemma_retry_ceiling(rest, tries + 1, path);
        }
    }
}

/// A prediction that follows no more than [`RETRY_CEILING`] transient
/// failures reaches the submitter as it is; one that would only follow more
/// of them does not, the item having been given up before.
pub proof fn lemma_success_within_ceiling(
    failures: Seq<Result<bool, ErrorView>>,
    prediction: bool,
    later: Seq<Result<bool, ErrorView>>,
    path: Seq<char>,
)
    requires
        all_transient(failures),
    ensures
        failures.len() <= RETRY_CEILING ==> concluded(
            failures + seq![Ok::<bool, ErrorView>(prediction)] + later,
            0,
            path,
        ) == Some(Ok::<bool, ErrorView>(prediction)),
        failures.len() > RETRY_CEILING ==> concluded(
            failures + seq![Ok::<bool, ErrorView>(prediction)] + later,
            0,
            path,
        ) == Some(Err::<bool, ErrorView>(gave_up(path))),
{
    lemma_success_after(failures, prediction, later, 0, path);
}

proof fn lemma_success_after(
    failures: Seq<Result<bool, ErrorView>>,
    prediction: bool,
    later: Seq<Result<bool, ErrorView>>,
    tries: nat,
    path: Seq<char>,
)
    requires
        all_transient(failures),
        tries <= RETRY_CEILING,
    ensures
        failures.len() + tries <= RETRY_CEILING ==> concluded(
            failures + seq![Ok::<bool, ErrorView>(prediction)] + later,
            tries,
            path,
        ) == Some(Ok::<bool, ErrorView>(prediction)),
        failures.len() + tries > RETRY_CEILING ==> concluded(
            failures + seq![Ok::<bool, ErrorView>(prediction)] + later,
            tries,
            path,
        ) == Some(Err::<bool, ErrorView>(gave_up(path))),
    decreases failures.len(),
{
    let all = failures + seq![Ok::<bool, ErrorView>(prediction)] + later;
    if failures.len() == 0 {
        assert(all[0] == Ok::<bool, ErrorView>(prediction));
    } else {
        let rest = failures.drop_first();
        assert(all[0] == failures[0]);
        assert(transient(failures[0]));
        assert(all.drop_first() =~= rest + seq![Ok::<bool, ErrorView>(prediction)] + later);
        assert forall|i: int| 0 <= i < rest.len() implies transient(#[trigger] rest[i]) by {
            assert(rest[i] == failures[i + 1]);
        }
        if tries + 1 <= RETRY_CEILING {
            lemma_success_after(rest, prediction, later, tries + 1, path);
        }
    }
}

/// A worker is in the idle set exactly while it has no dispatch outstanding:
/// never both, and never neither.
pub proof fn lemma_idle_or_dispatched(q: QueueView, id: u64)
    requires
        q.knows(id),
    ensures
        q.is_idle(id) <==> q.outstanding(id) is None,
        q.idle_set().contains(id) <==> q.outstanding(id) is None,
{
}

/// At most one dispatch in flight per worker: a worker that is handed work
/// has left the idle set and has that work, and nothing else, outstanding; a
/// worker that asks in vain is idle; and no other worker is affected.
pub proof fn lemma_dispatch_leaves_idle_set(
    before: QueueView,
    id: u64,
    out: Option<DispatchView>,
    after: QueueView,
)
    requires
        before.distinct_workers(),
        before.request_step(id, out, after),
    ensures
        after.distinct_workers(),
        out matches Some(d) ==> d.worker == id && before.knows(id) && !after.idle_set().contains(
            id,
        ) && after.outstanding(id) == Some(d.item),
        out is None && before.knows(id) ==> after.idle_set().contains(id),
        forall|other: u64|
            other != id ==> after.knows(other) == before.knows(other) && after.outstanding(other)
                == before.outstanding(other) && after.idle_set().contains(other)
                == before.idle_set().contains(other),
{
    if before.knows(id) {
        let at = before.slot_of(id);
        assert(after.slots.len() == before.slots.len());
        assert(after.slots[at].id == id);
        assert(after.knows(id));
        assert(after.slot_of(id) == at);
        assert forall|other: u64| other != id implies after.knows(other) == before.knows(other)
            && after.outstanding(other) == before.outstanding(other) && after.idle_set().contains(
            other,
        ) == before.idle_set().contains(other) by {
            if before.knows(other) {
                let k = before.slot_of(other);
                assert(after.slots[k] == before.slots[k]);
                assert(after.knows(other));
                assert(after.slot_of(other) == k);
            }
            if after.knows(other) {
                let k = after.slot_of(other);
                assert(after.slots[k] == before.slots[k]);
                assert(before.knows(other));
                assert(before.slot_of(other) == k);
            }
        }
    }
}

/// Work that is handed out on a submission goes to a worker that was idle,
/// and that worker is idle no more.
pub proof fn lemma_submission_uses_idle_worker(
    before: QueueView,
    item: ItemView,
    out: Option<DispatchView>,
    after: QueueView,
)
    requires
        before.distinct_workers(),
        before.submit_step(item, out, after),
    ensures
        after.distinct_workers(),
        out matches Some(d) ==> before.idle_set().contains(d.worker) && !after.idle_set().contains(
            d.worker,
        ) && after.outstanding(d.worker) == Some(d.item),
        out is None && !before.has_idle() ==> after == before.enqueued(item),
{
    lemma_first_idle(before);
    if before.has_idle() {
        let at = before.first_idle();
        let id = before.slots[at].id;
        let queued = before.enqueued(item);
        assert(before.knows(id));
        assert(before.slot_of(id) == at);
        lemma_dispatch_leaves_idle_set(queued, id, out, after);
    }
}

/// The backlog `items` after `n` of its items were handed out, one after
/// the other, and none was finished.
pub open spec fn rotated(items: Seq<ItemView>, n: nat) -> Seq<ItemView>
    decreases n,
{
    if n == 0 || items.len() == 0 {
        items
    } else {
        let before = rotated(items, (n - 1) as nat);
        before.drop_first().push(before[0])
    }
}

/// The backlog goes round: while no item is finished, the items are handed
/// out in the order of the backlog, each of them once before any of them a
/// second time, and after one round the backlog is as it was.
pub proof fn lemma_backlog_goes_round(items: Seq<ItemView>, n: nat)
    requires
        n <= items.len(),
    ensures
        rotated(items, n) == items.skip(n as int) + items.take(n as int),
        n < items.len() ==> rotated(items, n)[0] == items[n as int],
        n == items.len() ==> rotated(items, n) == items,
    decreases n,
{
    if n == 0 {
        assert(items.skip(0) + items.take(0) =~= items);
    } else {
        lemma_backlog_goes_round(items, (n - 1) as nat);
        let before = rotated(items, (n - 1) as nat);
        assert(before[0] == items[n - 1]);
        assert(before.drop_first().push(before[0]) =~= items.skip(n as int) + items.take(
            n as int,
        ));
        if n == items.len() {
            assert(items.skip(n as int) + items.take(n as int) =~= items);
        }
    }
}

/// What is asked of a queue.
pub enum QueueOp {
    /// Worker `id` asks for its next file.
    Request { id: u64 },
    /// `item` is submitted.
    Submit { item: ItemView },
    /// `item` is queued again, and worker `id` asks for its next file.
    Retry { id: u64, item: ItemView },
    /// The item of the ticket `sink` is finished, and worker `id` asks for
    /// its next file.
    Finish { id: u64, sink: u64 },
}

impl QueueView {
    /// The queue answers `op` with `out` and is left as `after`.
    pub open spec fn op_step(self, op: QueueOp, out: Option<DispatchView>, after: QueueView) -> bool {
        match op {
            QueueOp::Request { id } => self.request_step(id, out, after),
            QueueOp::Submit { item } => self.submit_step(item, out, after),
            QueueOp::Retry { id, item } => self.without(item.sink).enqueued(item).request_step(
                id,
                out,
                after,
            ),
            QueueOp::Finish { id, sink } => self.without(sink).request_step(id, out, after),
        }
    }
}

/// `states` are the states of a queue before, between and after the
/// operations `ops`, which it answered with `outs`.
pub open spec fn history(
    states: Seq<QueueView>,
    ops: Seq<QueueOp>,
    outs: Seq<Option<DispatchView>>,
) -> bool {
    &&& states.len() == ops.len() + 1
    &&& outs.len() == ops.len()
    &&& forall|i: int|
        0 <= i < ops.len() ==> states[i].op_step(#[trigger] ops[i], outs[i], states[i + 1])
}

/// In every history of a queue, a worker that is handed work is out of the
/// idle set in the state that follows, with that work and no other
/// outstanding; and the workers stay told apart.
pub proof fn lemma_history_keeps_dispatch_and_idle_apart(
    states: Seq<QueueView>,
    ops: Seq<QueueOp>,
    outs: Seq<Option<DispatchView>>,
    at: int,
)
    requires
        history(states, ops, outs),
        states[0].distinct_workers(),
        0 <= at < ops.len(),
    ensures
        states[at].distinct_workers(),
        states[at + 1].distinct_workers(),
        outs[at] matches Some(d) ==> !states[at + 1].idle_set().contains(d.worker) && states[at
            + 1].outstanding(d.worker) == Some(d.item),
    decreases at,
{
    if at > 0 {
        lemma_history_keeps_dispatch_and_idle_apart(states, ops, outs, at - 1);
    }
    let before = states[at];
    let after = states[at + 1];
    assert(before.op_step(ops[at], outs[at], after));
    match ops[at] {
        QueueOp::Request { id } => {
            lemma_dispatch_leaves_idle_set(before, id, outs[at], after);
        },
        QueueOp::Submit { item } => {
            lemma_submission_uses_idle_worker(before, item, outs[at], after);
        },
        QueueOp::Retry { id, item } => {
            lemma_dispatch_leaves_idle_set(
                before.without(item.sink).enqueued(item),
                id,
                outs[at],
                after,
            );
        },
        QueueOp::Finish { id, sink } => {
            lemma_dispatch_leaves_idle_set(before.without(sink), id, outs[at], after);
        },
    }
}

} // verus!
