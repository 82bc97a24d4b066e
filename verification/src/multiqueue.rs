//! The queue that all flavours are built on.
use vstd::prelude::*;

use core::marker::PhantomData;

use crate::countedindex::{get_valid_wrap, rm_tag, CountedIndex, Index, Transaction};
use crate::countedindex::{INITIAL_QUEUE_FLAG, MASK_IND, MAX_WRAP};
use crate::errors::{TryRecvError, TrySendError};
use crate::memory::{MemoryManager, Retired};
use crate::model::QueueView;
use crate::read_cursor::{ReadAttempt, ReadCursor, Reader, ReaderState};
use crate::receiver::Receiver;
use crate::sender::{QueueState, Sender};
use crate::wait::{check, BlockingWait, Stage, Wait, WaitOn};

verus! {

/// How values leave a queue.
pub trait DoDrop<T>: Sized {
    /// Values stay in the queue, so that other streams can receive them too.
    spec fn shares() -> bool;

    /// `out` is what a stream can receive when `stored` is in the queue.
    spec fn delivers(stored: T, out: T) -> bool;

    /// Gets a value out of the place where it is stored.
    fn get_val(val: &mut Option<T>) -> (res: T)
        requires
            *old(val) is Some,
        ensures
            Self::delivers((*old(val))->0, res),
            Self::shares() ==> *final(val) == *old(val),
            !Self::shares() ==> *final(val) is None,
    ;
}

/// Every stream receives a clone of each value.
pub struct BCast<T> {
    mk: PhantomData<T>,
}

/// There is one stream, and it receives the values themselves.
pub struct MPMC<T> {
    mk: PhantomData<T>,
}

impl<T: Clone> DoDrop<T> for BCast<T> {
    open spec fn shares() -> bool {
        true
    }

    open spec fn delivers(stored: T, out: T) -> bool {
        call_ensures(T::clone, (&stored,), out)
    }

    fn get_val(val: &mut Option<T>) -> (res: T) {
        val.as_ref().unwrap().clone()
    }
}

impl<T> DoDrop<T> for MPMC<T> {
    open spec fn shares() -> bool {
        false
    }

    open spec fn delivers(stored: T, out: T) -> bool {
        out == stored
    }

    fn get_val(val: &mut Option<T>) -> (res: T) {
        val.take().unwrap()
    }
}

/// A place for a value, and the count of the value that is there.
struct QueueEntry<T> {
    val: Option<T>,
    wraps: usize,
}

/// A bounded queue with any number of senders and streams.
#[verifier::reject_recursive_types(D)]
#[verifier::reject_recursive_types(T)]
pub struct MultiQueue<D: DoDrop<T>, T> {
    head: CountedIndex,
    tail_cache: usize,
    writers: usize,
    tail: ReadCursor,
    data: Vec<QueueEntry<T>>,
    needs_notify: bool,
    wake: bool,
    manager: MemoryManager,
    log: Ghost<Seq<Option<T>>>,
    positions: Ghost<Map<usize, nat>>,
    cached_tail: Ghost<nat>,
    mk: PhantomData<D>,
}

/// A place in a queue that its holder alone may fill.
pub struct WriteClaim {
    slot: usize,
    tag: usize,
    count: Ghost<nat>,
}

/// What came of a try to claim a place.
pub enum ClaimResult {
    /// The place is claimed.
    Claimed(WriteClaim),
    /// Another sender has claimed the place first; this is where to try next.
    Lost(Transaction),
    /// There is no place.
    Full,
}

impl WriteClaim {
    /// Which place of the log is claimed.
    pub closed spec fn count(&self) -> nat {
        self.count@
    }

    /// The claim is one to a place of a queue of `capacity` places.
    pub closed spec fn wf(&self, capacity: Index) -> bool {
        &&& self.slot == self.count@ as int % capacity as int
        &&& self.tag == crate::countedindex::untagged(self.count@ as int)
    }
}

impl<D: DoDrop<T>, T> View for MultiQueue<D, T> {
    type V = QueueView<T>;

    closed spec fn view(&self) -> QueueView<T> {
        QueueView {
            capacity: self.data@.len() as usize,
            log: self.log@,
            positions: self.positions@,
            cached_tail: self.cached_tail@,
            writers: self.writers,
            needs_notify: self.needs_notify,
            wake: self.wake,
            cursor: self.tail@,
            manager: self.manager@,
        }
    }
}

impl<D: DoDrop<T>, T> MultiQueue<D, T> {
    /// The queue is stored as it should be.
    pub closed spec fn wf(&self) -> bool {
        &&& self@.wf()
        &&& self.tail.wf()
        &&& self.manager.wf()
        &&& self.data@.len() <= MAX_WRAP
        &&& self.head.wf()
        &&& self.head.wrap() == self.data@.len()
        &&& self.head.val == crate::countedindex::untagged(self@.sent() as int)
        &&& self.tail_cache == crate::countedindex::untagged(self.cached_tail@ as int)
        &&& !D::shares() ==> self@.cursor.group.len() <= 1
        &&& self@.cursor.group.len() > 0 ==> self.cells_wf()
    }

    /// What is stored is a consistent state of a queue.
    pub proof fn lemma_consistent(&self)
        requires
            self.wf(),
        ensures
            self@.wf(),
            !D::shares() ==> self@.cursor.group.len() <= 1,
    {
    }

    /// The part of the log that the streams may need is stored.
    spec fn cells_wf(&self) -> bool {
        &&& forall|n: int| self@.sent() - self.data@.len() <= n < self@.sent() && 0 <= n ==> #[trigger] self.cell_wf(n)
        &&& forall|i: int| self@.sent() <= i < self.data@.len() ==> (#[trigger] self.data@[i]).wraps
            == INITIAL_QUEUE_FLAG
    }

    /// The place `n` of the log is stored.
    spec fn cell_wf(&self, n: int) -> bool {
        let cap = self.data@.len() as int;
        let cell = self.data@[n % cap];
        if self.log@[n] is Some {
            &&& cell.wraps == crate::countedindex::untagged(n)
            &&& self.is_needed(n) ==> cell.val == self.log@[n]
        } else if n >= cap {
            cell.wraps == crate::countedindex::untagged(n - cap)
        } else {
            cell.wraps == INITIAL_QUEUE_FLAG
        }
    }

    /// Some stream may have to receive the value at place `n`.
    spec fn is_needed(&self, n: int) -> bool {
        D::shares() || forall|pos: usize| #[trigger] self@.is_live(pos) ==> self@.positions[pos] <= n
    }

    /// A stream at a place `n` of the log that the queue can hold finds there what the log says.
    proof fn lemma_cell_read(&self, pos: usize)
        requires
            self.wf(),
            self@.is_live(pos),
        ensures
            self.data@.len() > 0,
            ({
                let n = self@.positions[pos] as int;
                let slot = n % (self.data@.len() as int);
                &&& 0 <= slot < self.data@.len()
                &&& (self@.is_readable(pos) <==> crate::countedindex::untagged(self.data@[slot].wraps as int)
                    == crate::countedindex::untagged(n))
                &&& self@.is_readable(pos) && self.is_needed(n) ==> self.data@[slot].val == Some(
                    self@.next_value(pos),
                )
            }),
    {
        let cap = self.data@.len() as int;
        let n = self@.positions[pos] as int;
        let sent = self@.sent() as int;
        let slot = n % cap;
        let lap = MASK_IND as int;
        crate::countedindex::lemma_slot_of_count(n, cap as usize);
        crate::countedindex::lemma_lap();
        assert(self@.stream_wf(pos));
        assert(self@.cursor.group.to_set().contains(pos));
        vstd::arithmetic::div_mod::lemma_mod_twice(n, lap);
        if n < sent {
            assert(self.cell_wf(n));
            if self.log@[n] is None {
                if n >= cap {
                    vstd::arithmetic::div_mod::lemma_mod_twice(n - cap, lap);
                    crate::countedindex::lemma_counts_differ(n, n - cap);
                } else {
                    vstd::arithmetic::div_mod::lemma_small_mod(n as nat, lap as nat);
                    vstd::arithmetic::div_mod::lemma_mod_multiples_vanish(1, lap - 1, lap);
                    vstd::arithmetic::div_mod::lemma_small_mod((lap - 1) as nat, lap as nat);
                }
            }
        } else if n >= cap {
            let m = n - cap;
            assert(self.cell_wf(m));
            vstd::arithmetic::div_mod::lemma_mod_multiples_vanish(1, m, cap);
            if self.log@[m] is Some {
                vstd::arithmetic::div_mod::lemma_mod_twice(m, lap);
                crate::countedindex::lemma_counts_differ(n, m);
            } else if m >= cap {
                vstd::arithmetic::div_mod::lemma_mod_twice(m - cap, lap);
                crate::countedindex::lemma_counts_differ(n, m - cap);
            } else {
                vstd::arithmetic::div_mod::lemma_small_mod(n as nat, lap as nat);
                vstd::arithmetic::div_mod::lemma_mod_multiples_vanish(1, lap - 1, lap);
                vstd::arithmetic::div_mod::lemma_small_mod((lap - 1) as nat, lap as nat);
            }
        } else {
            vstd::arithmetic::div_mod::lemma_small_mod(n as nat, cap as nat);
            assert(self.data@[n].wraps == INITIAL_QUEUE_FLAG);
            vstd::arithmetic::div_mod::lemma_small_mod(n as nat, lap as nat);
            vstd::arithmetic::div_mod::lemma_mod_multiples_vanish(1, lap - 1, lap);
            vstd::arithmetic::div_mod::lemma_small_mod((lap - 1) as nat, lap as nat);
        }
    }

    /// The distance of one stream, in counts and in the log.
    proof fn lemma_distance(&self, pos: usize)
        requires
            self.wf(),
            self@.is_live(pos),
        ensures
            crate::countedindex::lead(self.head.val, self@.cursor.streams[pos].count) == self@.backlog(pos),
    {
        crate::countedindex::lemma_lap();
        assert(self@.stream_wf(pos));
        crate::countedindex::lemma_lead(self@.sent() as int, self@.positions[pos] as int);
    }

    /// What the distances of the streams say about the slowest one.
    proof fn lemma_max_diff(&self)
        requires
            self.wf(),
        ensures
            !crate::read_cursor::runs_ahead(self@.cursor.group, self@.cursor.streams, self.head.val),
            forall|diff: int|
                crate::read_cursor::is_max_diff(
                    self@.cursor.group,
                    self@.cursor.streams,
                    self.head.val,
                    diff,
                ) ==> {
                    &&& 0 <= diff <= self.data@.len()
                    &&& diff <= self@.sent()
                    &&& self@.is_slowest((self@.sent() - diff) as nat)
                    &&& crate::countedindex::untagged(self@.sent() - diff) == crate::countedindex::untagged(
                        self.head.val - diff,
                    )
                },
    {
        let group = self@.cursor.group;
        let streams = self@.cursor.streams;
        let head = self.head.val;
        let sent = self@.sent() as int;
        assert(self@.positions.dom() == group.to_set());
        assert forall|i: int| 0 <= i < group.len() implies self@.is_live(#[trigger] group[i]) by {
            assert(group.to_set().contains(group[i]));
        }
        if crate::read_cursor::runs_ahead(group, streams, head) {
            let i = choose|i: int|
                0 <= i < group.len() && crate::countedindex::lead(head, streams[#[trigger] group[i]].count)
                    > MAX_WRAP;
            self.lemma_distance(group[i]);
            assert(self@.stream_wf(group[i]));
        }
        assert forall|diff: int| crate::read_cursor::is_max_diff(group, streams, head, diff) implies {
            &&& 0 <= diff <= self.data@.len()
            &&& diff <= sent
            &&& self@.is_slowest((sent - diff) as nat)
            &&& crate::countedindex::untagged(sent - diff) == crate::countedindex::untagged(head - diff)
        } by {
            if group.len() > 0 {
                let i = choose|i: int|
                    0 <= i < group.len() && crate::countedindex::lead(
                        head,
                        streams[#[trigger] group[i]].count,
                    ) == diff;
                self.lemma_distance(group[i]);
                assert(self@.stream_wf(group[i]));
                assert(self@.is_live(group[i]));
                assert(self@.positions[group[i]] == sent - diff);
            }
            assert forall|pos: usize| #[trigger] self@.is_live(pos) implies sent - diff
                <= self@.positions[pos] by {
                self.lemma_distance(pos);
                let i = choose|i: int| 0 <= i < group.len() && group[i] == pos;
                assert(crate::countedindex::lead(head, streams[group[i]].count) <= diff);
            }
            crate::countedindex::lemma_untagged_step(sent, -diff);
        }
    }

    /// The count `by` before the head.
    fn count_before(count: usize, by: Index) -> (res: usize)
        ensures
            res == crate::countedindex::untagged(count - by),
    {
        let word: usize = CountedIndex::get_previous(count, by);
        proof {
            crate::countedindex::lemma_wrapped_word(count - by, word);
        }
        rm_tag(word)
    }

    /// Looks up the slowest stream for a sender that may not be alone, and says where the stream
    /// was last seen.
    fn reload_tail_multi(&mut self, tail_cache: usize, count: usize) -> (res: usize)
        requires
            old(self).wf(),
            old(self)@.cache_spent(),
            count == old(self).head.val,
            tail_cache == old(self).tail_cache,
        ensures
            final(self).wf(),
            old(self)@.is_slowest(old(self)@.slowest()),
            final(self)@ == (QueueView { cached_tail: old(self)@.slowest(), ..old(self)@ }),
            final(self).data == old(self).data,
            final(self).head == old(self).head,
            res == final(self).tail_cache,
    {
        proof {
            self.lemma_max_diff();
        }
        if let Some(max_diff_from_head) = self.tail.get_max_diff(count) {
            let current_tail: usize = Self::count_before(count, max_diff_from_head);
            proof {
                let p = (self@.sent() - max_diff_from_head) as nat;
                self@.lemma_slowest(p);
                self.cached_tail@ = p;
            }
            if self.tail_cache == tail_cache {
                self.tail_cache = current_tail;
            }
            proof {
                self.lemma_same_cells(old(self));
            }
            self.tail_cache
        } else {
            self.tail_cache
        }
    }

    /// Looks up the slowest stream for a sender that is alone, and says where the stream is.
    fn reload_tail_single(&mut self, count: usize) -> (res: usize)
        requires
            old(self).wf(),
            count == old(self).head.val,
        ensures
            final(self).wf(),
            old(self)@.is_slowest(old(self)@.slowest()),
            final(self)@ == (QueueView { cached_tail: old(self)@.slowest(), ..old(self)@ }),
            final(self).data == old(self).data,
            final(self).head == old(self).head,
            res == final(self).tail_cache,
    {
        proof {
            self.lemma_max_diff();
        }
        let found = self.tail.get_max_diff(count);
        let max_diff_from_head: Index = found.unwrap();
        proof {
            assert(crate::read_cursor::is_max_diff(
                self@.cursor.group,
                self@.cursor.streams,
                self.head.val,
                max_diff_from_head as int,
            ));
        }
        let current_tail: usize = Self::count_before(count, max_diff_from_head);
        proof {
            let p = (self@.sent() - max_diff_from_head) as nat;
            self@.lemma_slowest(p);
            self.cached_tail@ = p;
        }
        self.tail_cache = current_tail;
        proof {
            self.lemma_same_cells(old(self));
        }
        current_tail
    }

    /// What is stored stays good when the log, the positions and the places do not change.
    proof fn lemma_same_cells(&self, other: &Self)
        requires
            other.wf(),
            self.log == other.log,
            self.positions == other.positions,
            self.data == other.data,
        ensures
            self@.positions == other@.positions,
            other@.cursor.group.len() > 0 ==> self.cells_wf(),
            forall|pos: usize| self@.is_live(pos) == other@.is_live(pos),
            forall|pos: usize| #[trigger] self@.is_live(pos) ==> other@.stream_wf(pos),
    {
        assert(self@.positions == other@.positions);
        if other@.cursor.group.len() > 0 {
            assert forall|n: int|
                self@.sent() - self.data@.len() <= n < self@.sent() && 0 <= n implies #[trigger] self.cell_wf(
                n,
            ) by {
                assert(other.cell_wf(n));
                assert(self.is_needed(n) == other.is_needed(n));
            }
        }
    }

    /// `transaction` was read from this queue's head, and not so long ago that the counts have
    /// come round to it again.
    pub closed spec fn is_recent(&self, transaction: &Transaction) -> bool {
        &&& transaction.mask == self.head.mask
        &&& transaction.loaded_vals != self.head.val ==> transaction.previous() != self.tail_cache
    }

    /// `transaction` is what can be read from the head now.
    pub closed spec fn is_current(&self, transaction: &Transaction) -> bool {
        &&& transaction.mask == self.head.mask
        &&& transaction.loaded_vals == self.head.val
    }

    /// The head can be compared with what was last seen of the slowest stream.
    proof fn lemma_cache(&self)
        requires
            self.wf(),
        ensures
            crate::countedindex::untagged(self.head.val - self.data@.len()) == self.tail_cache
                <==> self@.cache_spent(),
    {
        let sent = self@.sent() as int;
        let cap = self.data@.len() as int;
        crate::countedindex::lemma_slot_of_count(sent, cap as usize);
        crate::countedindex::lemma_lap();
        crate::countedindex::lemma_untagged_step(sent, -cap);
        if sent - cap != self.cached_tail@ {
            crate::countedindex::lemma_counts_differ(sent - cap, self.cached_tail@ as int);
        }
    }

    /// Reads the head in order to claim a place.
    pub fn load_transaction(&self) -> (res: Transaction)
        requires
            self.wf(),
        ensures
            res.wf(),
            self.is_current(&res),
            self.is_recent(&res),
    {
        self.head.load_transaction()
    }

    /// A head that was read can be used for a claim later, whatever was done with the queue in
    /// between, unless the counts have come round to it.
    pub proof fn lemma_stays_recent(before: &Self, now: &Self, transaction: &Transaction)
        requires
            before.wf(),
            now.wf(),
            before.is_current(transaction),
            now@.capacity == before@.capacity,
            before@.sent() <= now@.sent(),
            now@.sent() - before@.sent() < MASK_IND - before@.capacity,
        ensures
            now.is_recent(transaction),
            now.is_current(transaction) <==> now@.sent() == before@.sent(),
    {
        let then = before@.sent() as int;
        let sent = now@.sent() as int;
        let cap = now.data@.len() as int;
        let seen = now.cached_tail@ as int;
        crate::countedindex::lemma_lap();
        crate::countedindex::lemma_power_basics(cap);
        crate::countedindex::lemma_slot_of_count(then, cap as usize);
        crate::countedindex::lemma_untagged_step(then, -cap);
        if sent != then {
            crate::countedindex::lemma_counts_differ(sent, then);
            crate::countedindex::lemma_counts_differ(then - cap, seen);
        }
    }

    /// Records that the place at the head was claimed by a sender that had found room for it.
    proof fn lemma_claimed(&self, before: &Self)
        requires
            before.wf(),
            forall|pos: usize| #[trigger] before@.is_live(pos) ==> before@.backlog(pos) < before@.capacity,
            before@.sent() < before@.cached_tail + before@.capacity,
            self.head.mask == before.head.mask,
            self.head.val == crate::countedindex::untagged(before.head.val + 1),
            self.log@ == before.log@.push(None),
            self.tail_cache == before.tail_cache,
            self.writers == before.writers,
            self.tail == before.tail,
            self.data == before.data,
            self.needs_notify == before.needs_notify,
            self.wake == before.wake,
            self.manager == before.manager,
            self.positions == before.positions,
            self.cached_tail == before.cached_tail,
        ensures
            self.wf(),
    {
        let cap = self.data@.len() as int;
        let sent = before@.sent() as int;
        crate::countedindex::lemma_untagged_step(sent, 1);
        assert(self@.positions == before@.positions);
        assert forall|pos: usize| #[trigger] self@.is_live(pos) implies self@.stream_wf(pos) by {
            assert(before@.stream_wf(pos));
        }
        if self@.cursor.group.len() > 0 {
            let some = self@.cursor.group[0];
            assert(self@.cursor.group.to_set().contains(some));
            assert(before@.is_live(some));
            assert(before@.stream_wf(some));
            assert forall|n: int|
                self@.sent() - cap <= n < self@.sent() && 0 <= n implies #[trigger] self.cell_wf(n) by {
                if n < sent {
                    assert(before.cell_wf(n));
                    assert(self.is_needed(n) == before.is_needed(n));
                } else if n >= cap {
                    assert(before.cell_wf(n - cap));
                    vstd::arithmetic::div_mod::lemma_mod_multiples_vanish(1, n - cap, cap);
                } else {
                    vstd::arithmetic::div_mod::lemma_small_mod(n as nat, cap as nat);
                    assert(before.data@[n].wraps == INITIAL_QUEUE_FLAG);
                }
            }
        }
    }

    /// There is room at the head, by what was last seen of the slowest stream. This stays so until
    /// the place at the head is claimed.
    pub open spec fn has_room(&self, transaction: &Transaction) -> bool {
        self.is_current(transaction) ==> !self@.cache_spent()
    }

    /// Looks for room for a sender that may not be alone and has read the head: by what was last
    /// seen of the slowest stream, or else by where that stream is now. Does not look if another
    /// sender has claimed the place since.
    pub fn find_room(&mut self, transaction: &Transaction) -> (res: bool)
        requires
            old(self).wf(),
            old(self).is_recent(transaction),
            transaction.wf(),
        ensures
            final(self).wf(),
            final(self).is_recent(transaction),
            final(self).is_current(transaction) == old(self).is_current(transaction),
            res ==> final(self).has_room(transaction),
            ({
                let before = old(self)@;
                if !old(self).is_current(transaction) {
                    res && final(self)@ == before
                } else if before.is_full() {
                    !res && final(self)@ == before
                } else {
                    res && final(self)@ == (QueueView { cached_tail: before.refreshed_tail(), ..before })
                }
            }),
    {
        let (_, wrap_valid_tag) = transaction.get();
        let tail_cache: usize = self.tail_cache;
        proof {
            self.lemma_cache();
            old(self).lemma_room();
        }
        if transaction.matches_previous(tail_cache) {
            let new_tail: usize = self.reload_tail_multi(tail_cache, wrap_valid_tag);
            proof {
                self.lemma_cache();
            }
            if transaction.matches_previous(new_tail) {
                proof {
                    assert(self@.cached_tail == old(self)@.cached_tail);
                    assert(self@ =~= old(self)@);
                }
                return false;
            }
        }
        true
    }

    /// Claims the place at the head, unless another sender has done so since the head was read.
    /// Then the head is read again.
    pub fn take_place(&mut self, transaction: Transaction) -> (res: Result<WriteClaim, Transaction>)
        requires
            old(self).wf(),
            transaction.wf(),
            old(self).is_recent(&transaction),
            old(self).has_room(&transaction),
        ensures
            final(self).wf(),
            old(self).is_current(&transaction) ==> {
                &&& res matches Ok(claim) && claim.wf(old(self)@.capacity) && claim.count() == old(self)@.sent()
                &&& final(self)@ == (QueueView { log: old(self)@.log.push(None), ..old(self)@ })
            },
            !old(self).is_current(&transaction) ==> {
                &&& res matches Err(next) && next.wf() && final(self).is_current(&next) && final(self).is_recent(
                    &next,
                )
                &&& final(self)@ == old(self)@
            },
    {
        let (chead, wrap_valid_tag) = transaction.get();
        let ghost place = self@.sent();
        proof {
            if self.is_current(&transaction) {
                crate::countedindex::lemma_slot_of_count(place as int, self.data@.len() as usize);
            }
        }
        match transaction.commit(&mut self.head, 1) {
            Some(next) => Err(next),
            None => {
                proof {
                    self.log@ = self.log@.push(None);
                    old(self).lemma_room();
                    self.lemma_claimed(old(self));
                }
                Ok(WriteClaim { slot: chead, tag: wrap_valid_tag, count: Ghost(place) })
            },
        }
    }

    /// Tries to claim the next place for a sender that may not be alone.
    ///
    /// The sender first looks for room, and then takes the place, unless another sender has done
    /// so since the head was read.
    pub fn try_claim(&mut self, transaction: Transaction) -> (res: ClaimResult)
        requires
            old(self).wf(),
            transaction.wf(),
            old(self).is_recent(&transaction),
        ensures
            final(self).wf(),
            ({
                let before = old(self)@;
                if !old(self).is_current(&transaction) {
                    &&& res matches ClaimResult::Lost(next) && next.wf() && final(self).is_current(&next)
                        && final(self).is_recent(&next)
                    &&& final(self)@ == before
                } else if before.is_full() {
                    &&& res is Full
                    &&& final(self)@ == before
                } else {
                    &&& res matches ClaimResult::Claimed(claim) && claim.wf(before.capacity) && claim.count()
                        == before.sent()
                    &&& final(self)@ == before.claimed()
                }
            }),
    {
        if !self.find_room(&transaction) {
            return ClaimResult::Full;
        }
        match self.take_place(transaction) {
            Ok(claim) => ClaimResult::Claimed(claim),
            Err(next) => ClaimResult::Lost(next),
        }
    }

    /// Room that was found stays there, whatever is done with the queue, until the place is
    /// claimed: what senders have seen of the slowest stream never goes back.
    pub proof fn lemma_room_stays(before: &Self, now: &Self, transaction: &Transaction)
        requires
            before.wf(),
            now.wf(),
            before.is_current(transaction),
            before.has_room(transaction),
            now@.capacity == before@.capacity,
            before@.sent() <= now@.sent(),
            before@.cached_tail <= now@.cached_tail,
            now@.sent() - before@.sent() < MASK_IND - before@.capacity,
        ensures
            now.is_recent(transaction),
            now.has_room(transaction),
    {
        Self::lemma_stays_recent(before, now, transaction);
    }

    /// How the position of the slowest stream tells whether the queue is full.
    proof fn lemma_room(&self)
        requires
            self.wf(),
        ensures
            !self@.cache_spent() ==> forall|pos: usize| #[trigger]
                self@.is_live(pos) ==> self@.backlog(pos) < self@.capacity,
            !self@.cache_spent() ==> !self@.is_full(),
            self@.cache_spent() && self@.is_slowest(self@.slowest()) ==> (self@.is_full() <==> self@.slowest()
                == self@.cached_tail),
    {
        assert forall|pos: usize| #[trigger] self@.is_live(pos) implies self@.stream_wf(pos) by {}
        if self@.cache_spent() && self@.is_slowest(self@.slowest()) {
            let p = self@.slowest();
            if self@.is_full() {
                let pos = choose|pos: usize|
                    #[trigger] self@.is_live(pos) && self@.backlog(pos) == self@.capacity;
                assert(self@.stream_wf(pos));
                assert(self@.positions[pos] == self@.cached_tail);
            }
            if p == self@.cached_tail {
                crate::countedindex::lemma_power_basics(self@.capacity as int);
                let pos = choose|pos: usize| #[trigger] self@.is_live(pos) && p == self@.positions[pos];
                assert(self@.backlog(pos) == self@.capacity);
            }
        }
    }

    /// Fills a place that was claimed.
    pub fn publish(&mut self, claim: WriteClaim, val: T)
        requires
            old(self).wf(),
            claim.wf(old(self)@.capacity),
            old(self)@.is_open(claim.count()),
        ensures
            final(self).wf(),
            final(self)@ == old(self)@.published(claim.count(), val),
    {
        let ghost n = claim.count@ as int;
        let ghost cap = self.data@.len() as int;
        proof {
            crate::countedindex::lemma_slot_of_count(n, cap as usize);
        }
        let ghost stored = QueueEntry { val: Some(val), wraps: claim.tag };
        self.data.set(claim.slot, QueueEntry { val: Some(val), wraps: claim.tag });
        proof {
            self.log@ = self.log@.update(n, Some(val));
            let before = old(self)@;
            assert forall|pos: usize| #[trigger] self@.is_live(pos) implies self@.stream_wf(pos) by {
                assert(before.stream_wf(pos));
                assert(before.positions[pos] <= n) by {
                    if n < before.positions[pos] {
                        assert(before.log[n] is Some);
                    }
                }
            }
            if self@.cursor.group.len() > 0 {
                let some = self@.cursor.group[0];
                assert(self@.cursor.group.to_set().contains(some));
                assert(self@.is_live(some));
                assert(self@.stream_wf(some));
                assert(before.stream_wf(some));
                assert(before.positions[some] <= n) by {
                    if n < before.positions[some] {
                        assert(before.log[n] is Some);
                    }
                }
                assert forall|m: int|
                    self@.sent() - cap <= m < self@.sent() && 0 <= m implies #[trigger] self.cell_wf(m) by {
                    assert(old(self).cell_wf(m));
                    assert(self.is_needed(m) == old(self).is_needed(m));
                    if m != n {
                        crate::countedindex::lemma_slots_differ(m, n, cap);
                        vstd::arithmetic::div_mod::lemma_mod_bound(m, cap);
                    }
                }
                assert forall|i: int| self@.sent() <= i < cap implies (#[trigger] self.data@[i]).wraps
                    == INITIAL_QUEUE_FLAG by {
                    vstd::arithmetic::div_mod::lemma_small_mod(n as nat, cap as nat);
                    assert(old(self).data@[i].wraps == INITIAL_QUEUE_FLAG);
                }
            }
        }
    }

    /// Sends a value for a sender that may not be alone.
    pub fn try_send_multi(&mut self, val: T) -> (res: Result<(), TrySendError<T>>)
        requires
            old(self).wf(),
        ensures
            final(self).wf(),
            old(self)@.is_full() ==> {
                &&& res == Err::<(), TrySendError<T>>(TrySendError::Full(val))
                &&& final(self)@ == old(self)@
            },
            !old(self)@.is_full() ==> {
                &&& res is Ok
                &&& final(self)@ == old(self)@.pushed(val)
            },
    {
        let mut transaction = self.load_transaction();
        loop
            invariant
                self.wf(),
                transaction.wf(),
                self.is_current(&transaction),
                self.is_recent(&transaction),
                self@ == old(self)@,
            decreases 0int,
        {
            match self.try_claim(transaction) {
                ClaimResult::Lost(next) => {
                    transaction = next;
                },
                ClaimResult::Full => {
                    return Err(TrySendError::Full(val));
                },
                ClaimResult::Claimed(claim) => {
                    self.publish(claim, val);
                    proof {
                        assert(self@.log =~= old(self)@.pushed(val).log);
                    }
                    return Ok(());
                },
            }
        }
    }

    /// Sends a value for a sender that is alone.
    pub fn try_send_single(&mut self, val: T) -> (res: Result<(), TrySendError<T>>)
        requires
            old(self).wf(),
        ensures
            final(self).wf(),
            old(self)@.is_full() ==> {
                &&& res == Err::<(), TrySendError<T>>(TrySendError::Full(val))
                &&& final(self)@ == old(self)@
            },
            !old(self)@.is_full() ==> {
                &&& res is Ok
                &&& final(self)@ == old(self)@.pushed(val)
            },
    {
        let transaction = self.head.load_transaction();
        let (chead, wrap_valid_tag) = transaction.get();
        let tail_cache: usize = self.tail_cache;
        proof {
            self.lemma_cache();
            crate::countedindex::lemma_slot_of_count(self@.sent() as int, self.data@.len() as usize);
        }
        if transaction.matches_previous(tail_cache) {
            let new_tail: usize = self.reload_tail_single(wrap_valid_tag);
            proof {
                self.lemma_cache();
                old(self).lemma_room();
            }
            if transaction.matches_previous(new_tail) {
                proof {
                    assert(self@ =~= old(self)@);
                }
                return Err(TrySendError::Full(val));
            }
        }
        let ghost ready = *self;
        let ghost place = self@.sent();
        transaction.commit_direct(&mut self.head, 1);
        proof {
            self.log@ = self.log@.push(None);
            ready.lemma_room();
            old(self).lemma_room();
            self.lemma_claimed(&ready);
        }
        self.publish(WriteClaim { slot: chead, tag: wrap_valid_tag, count: Ghost(place) }, val);
        proof {
            assert(self@.log =~= old(self)@.pushed(val).log);
        }
        Ok(())
    }

    /// What is stored stays good when a stream that can receive a value moves on by one.
    proof fn lemma_moved(&self, before: &Self, pos: usize, state: ReaderState)
        requires
            before.wf(),
            before@.is_live(pos),
            before@.is_readable(pos),
            self@ == before@.moved(pos, state),
            self.tail.wf(),
            self.head == before.head,
            self.tail_cache == before.tail_cache,
            self.manager == before.manager,
            self.data@.len() == before.data@.len(),
            forall|i: int|
                0 <= i < self.data@.len() ==> (#[trigger] self.data@[i]).wraps == before.data@[i].wraps,
            forall|i: int|
                0 <= i < self.data@.len() && (D::shares() || i != before@.positions[pos] as int
                    % self.data@.len() as int) ==> (#[trigger] self.data@[i]).val == before.data@[i].val,
        ensures
            self.wf(),
    {
        let cap = self.data@.len() as int;
        let n = before@.positions[pos] as int;
        crate::countedindex::lemma_slot_of_count(n, cap as usize);
        assert(before@.stream_wf(pos));
        assert(before@.cursor.group.to_set().contains(pos));
        assert(self@.positions.dom() =~= before@.positions.dom());
        assert(self@.cursor.streams.dom() =~= before@.cursor.streams.dom());
        assert forall|p: usize| #[trigger] self@.is_live(p) implies self@.stream_wf(p) by {
            assert(before@.stream_wf(p));
        }
        assert forall|m: int| self@.sent() - cap <= m < self@.sent() && 0 <= m implies #[trigger] self.cell_wf(
            m,
        ) by {
            assert(before.cell_wf(m));
            vstd::arithmetic::div_mod::lemma_mod_bound(m, cap);
            if self.is_needed(m) {
                assert(before.is_needed(m)) by {
                    assert forall|p: usize| #[trigger] before@.is_live(p) && !D::shares() implies before@.positions[p]
                        <= m by {
                        assert(self@.is_live(p));
                        assert(self@.positions[p] <= m);
                    }
                }
                if !D::shares() {
                    assert(self@.positions[pos] <= m);
                    assert(before@.sent() <= n + cap);
                    crate::countedindex::lemma_slots_differ(m, n, cap);
                }
            }
        }
        assert forall|i: int| self@.sent() <= i < cap implies (#[trigger] self.data@[i]).wraps
            == INITIAL_QUEUE_FLAG by {
            assert(before.data@[i].wraps == INITIAL_QUEUE_FLAG);
        }
    }

    /// Receives the next value of a stream. If there is none, says at which place it will be,
    /// unless nobody is left to send it.
    pub fn try_recv(&mut self, reader: &Reader) -> (res: Result<T, (Option<usize>, TryRecvError)>)
        requires
            old(self).wf(),
            old(self)@.is_live(reader.pos),
        ensures
            final(self).wf(),
            old(self)@.is_readable(reader.pos) ==> {
                &&& res matches Ok(val) && D::delivers(old(self)@.next_value(reader.pos), val)
                &&& final(self)@ == old(self)@.advanced(reader.pos)
            },
            !old(self)@.is_readable(reader.pos) ==> {
                &&& res == Err::<T, (Option<usize>, TryRecvError)>(old(self)@.why_empty(reader.pos))
                &&& final(self)@ == old(self)@
            },
    {
        let mut ctail_attempt = reader.load_attempt(&self.tail);
        loop
            invariant
                *self == *old(self),
                self.wf(),
                self@.is_live(reader.pos),
                ctail_attempt.wf(),
                ctail_attempt.reader == *reader,
                ctail_attempt.linked.loaded_vals == self@.cursor.streams[reader.pos].count,
                ctail_attempt.linked.wrap() == self@.cursor.streams[reader.pos].wrap,
                ctail_attempt.state == self@.cursor.streams[reader.pos].state,
            decreases 0int,
        {
            let (ctail, wrap_valid_tag) = ctail_attempt.get();
            let ghost n = self@.positions[reader.pos] as int;
            proof {
                assert(self@.stream_wf(reader.pos));
                self.lemma_cell_read(reader.pos);
                crate::countedindex::lemma_slot_of_count(n, self.data@.len() as usize);
            }
            if rm_tag(self.data[ctail].wraps) != wrap_valid_tag {
                if self.writers == 0 {
                    return Err((None, TryRecvError::Disconnected));
                }
                return Err((Some(ctail), TryRecvError::Empty));
            }
            match self.commit_recv(ctail_attempt) {
                Err(new_attempt) => {
                    ctail_attempt = new_attempt;
                },
                Ok(rval) => {
                    return Ok(rval);
                },
            }
        }
    }

    /// `attempt` can be used to receive a value. Where moving on would succeed, the stream stands
    /// where it did when its position was read, and the value is there.
    pub open spec fn is_fresh(&self, attempt: &ReadAttempt) -> bool {
        let stream = self@.cursor.streams[attempt.reader.pos];
        &&& attempt.wf()
        &&& attempt.linked.wrap() == self@.capacity
        &&& attempt.succeeds(stream) ==> attempt.linked.loaded_vals == stream.count && self@.is_readable(
            attempt.reader.pos,
        )
    }

    /// Receives the value at a position that was read, if no other consumer of the stream has
    /// received it since. Else reads the position again.
    pub fn commit_recv(&mut self, attempt: ReadAttempt) -> (res: Result<T, ReadAttempt>)
        requires
            old(self).wf(),
            old(self)@.is_live(attempt.reader.pos),
            old(self).is_fresh(&attempt),
        ensures
            final(self).wf(),
            ({
                let pos = attempt.reader.pos;
                let stream = old(self)@.cursor.streams[pos];
                if attempt.succeeds(stream) {
                    &&& res matches Ok(val) && D::delivers(old(self)@.next_value(pos), val)
                    &&& final(self)@ == old(self)@.moved(pos, attempt.moved(stream, 1).state)
                } else {
                    &&& res == Err::<T, ReadAttempt>(
                        ReadAttempt {
                            linked: Transaction { loaded_vals: stream.count, mask: attempt.linked.mask },
                            reader: attempt.reader,
                            state: ReaderState::Multi,
                        },
                    )
                    &&& final(self)@ == old(self)@
                }
            }),
    {
        let reader = attempt.reader;
        let ghost stream = self@.cursor.streams[reader.pos];
        let ghost state = attempt.moved(stream, 1).state;
        let ghost n = self@.positions[reader.pos] as int;
        let (ctail, _) = attempt.get();
        proof {
            assert(self@.stream_wf(reader.pos));
            self.lemma_cell_read(reader.pos);
            crate::countedindex::lemma_slot_of_count(n, self.data@.len() as usize);
            assert(self.is_needed(n)) by {
                self.lemma_alone(reader.pos);
            }
        }
        match attempt.commit_attempt(&mut self.tail, 1) {
            Some(new_attempt) => {
                proof {
                    self.lemma_same_cells(old(self));
                }
                Err(new_attempt)
            },
            None => {
                let rval = D::get_val(&mut self.data[ctail].val);
                proof {
                    self.positions@ = self.positions@.insert(reader.pos, (n + 1) as nat);
                    crate::countedindex::lemma_untagged_step(n, 1);
                    assert(self@ =~= old(self)@.moved(reader.pos, state));
                    self.lemma_moved(old(self), reader.pos, state);
                }
                Ok(rval)
            },
        }
    }

    /// A stream that does not share its values is the only one.
    proof fn lemma_alone(&self, pos: usize)
        requires
            self.wf(),
            self@.is_live(pos),
        ensures
            !D::shares() ==> forall|p: usize| #[trigger] self@.is_live(p) ==> p == pos,
    {
        let group = self@.cursor.group;
        assert(group.to_set().contains(pos));
        if !D::shares() {
            let i = choose|i: int| 0 <= i < group.len() && group[i] == pos;
            assert forall|p: usize| #[trigger] self@.is_live(p) implies p == pos by {
                assert(group.to_set().contains(p));
                let j = choose|j: int| 0 <= j < group.len() && group[j] == p;
                assert(i == 0 && j == 0);
            }
        }
    }

    /// Reads the position of a stream that can receive a value, in order to move it on, and else
    /// says what `try_recv` says then.
    pub fn look(&self, reader: &Reader) -> (res: Result<ReadAttempt, (Option<usize>, TryRecvError)>)
        requires
            self.wf(),
            self@.is_live(reader.pos),
        ensures
            !self@.is_readable(reader.pos) ==> res == Err::<ReadAttempt, (Option<usize>, TryRecvError)>(
                self@.why_empty(reader.pos),
            ),
            self@.is_readable(reader.pos) ==> {
                &&& res matches Ok(attempt) && self.looks_at(&attempt, reader.pos) && self.is_fresh(&attempt)
                    && attempt.state == self@.cursor.streams[reader.pos].state
            },
    {
        let ctail_attempt = reader.load_attempt(&self.tail);
        let (ctail, wrap_valid_tag) = ctail_attempt.get();
        let ghost n = self@.positions[reader.pos] as int;
        proof {
            assert(self@.stream_wf(reader.pos));
            self.lemma_cell_read(reader.pos);
            crate::countedindex::lemma_slot_of_count(n, self.data@.len() as usize);
        }
        if rm_tag(self.data[ctail].wraps) != wrap_valid_tag {
            if self.writers == 0 {
                return Err((None, TryRecvError::Disconnected));
            }
            return Err((Some(ctail), TryRecvError::Empty));
        }
        Ok(ctail_attempt)
    }

    /// `attempt` is where the stream at `pos` stands.
    pub open spec fn looks_at(&self, attempt: &ReadAttempt, pos: usize) -> bool {
        &&& attempt.wf()
        &&& attempt.reader.pos == pos
        &&& attempt.linked.loaded_vals == self@.cursor.streams[pos].count
        &&& attempt.linked.wrap() == self@.capacity
    }

    /// A position that was read can be used later, whatever was done with the queue in between. If
    /// the stream has not moved, its value is still there. If it has, a consumer that is not alone
    /// finds out, unless the counts have come round to where it stood.
    pub proof fn lemma_stays_fresh(before: &Self, now: &Self, attempt: &ReadAttempt)
        requires
            before.wf(),
            now.wf(),
            before@.is_live(attempt.reader.pos),
            now@.is_live(attempt.reader.pos),
            before.looks_at(attempt, attempt.reader.pos),
            before@.is_readable(attempt.reader.pos),
            now@.capacity == before@.capacity,
            before@.sent() <= now@.sent(),
            now@.log[before@.positions[attempt.reader.pos] as int]
                == before@.log[before@.positions[attempt.reader.pos] as int],
            before@.positions[attempt.reader.pos] <= now@.positions[attempt.reader.pos],
            now@.positions[attempt.reader.pos] - before@.positions[attempt.reader.pos] < MASK_IND,
            attempt.is_direct(now@.cursor.streams[attempt.reader.pos]) ==> now@.positions[attempt.reader.pos]
                == before@.positions[attempt.reader.pos],
        ensures
            now.is_fresh(attempt),
            attempt.succeeds(now@.cursor.streams[attempt.reader.pos]) <==> now@.positions[attempt.reader.pos]
                == before@.positions[attempt.reader.pos],
    {
        let pos = attempt.reader.pos;
        assert(before@.stream_wf(pos));
        assert(now@.stream_wf(pos));
        let (m, n) = (before@.positions[pos] as int, now@.positions[pos] as int);
        if m != n {
            crate::countedindex::lemma_counts_differ(m, n);
        }
    }

    /// The next value of a stream, in its place.
    fn peek(&self, attempt: &ReadAttempt) -> (res: &T)
        requires
            self.wf(),
            self@.is_live(attempt.reader.pos),
            self@.is_readable(attempt.reader.pos),
            self.looks_at(attempt, attempt.reader.pos),
        ensures
            *res == self@.next_value(attempt.reader.pos),
    {
        let (ctail, _) = attempt.get();
        proof {
            let pos = attempt.reader.pos;
            let n = self@.positions[pos] as int;
            assert(self@.stream_wf(pos));
            self.lemma_cell_read(pos);
            crate::countedindex::lemma_slot_of_count(n, self.data@.len() as usize);
            assert(self.is_needed(n)) by {
                self.lemma_alone(pos);
            }
        }
        self.data[ctail].val.as_ref().unwrap()
    }

    /// Moves a stream on by the value that was looked at.
    fn pass(&mut self, attempt: ReadAttempt)
        requires
            old(self).wf(),
            old(self)@.is_live(attempt.reader.pos),
            old(self)@.is_readable(attempt.reader.pos),
            old(self).looks_at(&attempt, attempt.reader.pos),
        ensures
            final(self).wf(),
            final(self)@ == old(self)@.viewed(attempt.reader.pos),
    {
        let ghost pos = attempt.reader.pos;
        let ghost n = self@.positions[pos] as int;
        attempt.commit_direct(&mut self.tail, 1);
        proof {
            let before = old(self)@;
            assert(before.stream_wf(pos));
            self.positions@ = self.positions@.insert(pos, (n + 1) as nat);
            crate::countedindex::lemma_untagged_step(n, 1);
            assert(self@ =~= before.viewed(pos));
            self.lemma_moved(old(self), pos, before.cursor.streams[pos].state);
        }
    }

    /// Applies a function to the next value of a stream, in its place, and moves the stream on.
    /// The stream must have one consumer only. If there is no value, hands the function back, and
    /// says what `try_recv` says then.
    pub fn try_recv_view<R, F: FnOnce(&T) -> R>(&mut self, op: F, reader: &Reader) -> (res: Result<
        R,
        (F, Option<usize>, TryRecvError),
    >)
        requires
            old(self).wf(),
            old(self)@.is_live(reader.pos),
            old(self)@.can_view(reader.pos, op),
        ensures
            final(self).wf(),
            old(self)@.is_readable(reader.pos) ==> {
                &&& res matches Ok(val) && old(self)@.views(reader.pos, op, val, final(self)@)
            },
            !old(self)@.is_readable(reader.pos) ==> {
                &&& res == Err::<R, (F, Option<usize>, TryRecvError)>(
                    (op, old(self)@.why_empty(reader.pos).0, old(self)@.why_empty(reader.pos).1),
                )
                &&& final(self)@ == old(self)@
            },
    {
        match self.look(reader) {
            Ok(attempt) => {
                let rval = op(self.peek(&attempt));
                self.pass(attempt);
                Ok(rval)
            },
            Err((at, why)) => Err((op, at, why)),
        }
    }

    /// Does what `try_recv_view` does, with a function that stays with its owner.
    pub fn try_recv_with<R, F: FnMut(&T) -> R>(&mut self, op: &mut F, reader: &Reader) -> (res: Result<
        R,
        (Option<usize>, TryRecvError),
    >)
        requires
            old(self).wf(),
            old(self)@.is_live(reader.pos),
            old(self)@.can_view(reader.pos, *old(op)),
        ensures
            final(self).wf(),
            *final(op) == *old(op),
            old(self)@.is_readable(reader.pos) ==> {
                &&& res matches Ok(val) && old(self)@.views(reader.pos, *old(op), val, final(self)@)
            },
            !old(self)@.is_readable(reader.pos) ==> {
                &&& res == Err::<R, (Option<usize>, TryRecvError)>(old(self)@.why_empty(reader.pos))
                &&& final(self)@ == old(self)@
            },
    {
        match self.look(reader) {
            Ok(attempt) => {
                let rval = (*op)(self.peek(&attempt));
                self.pass(attempt);
                Ok(rval)
            },
            Err(why) => Err(why),
        }
    }

    /// The queue, the sender and the receiver are those of a new queue for at least `capacity`
    /// values, where receivers have to be called if `needs_notify`.
    pub open spec fn is_new(
        parts: (Self, Sender<D, T>, Receiver<D, T>),
        capacity: Index,
        needs_notify: bool,
    ) -> bool {
        let (queue, sender, receiver) = parts;
        &&& queue.wf()
        &&& crate::countedindex::rounds_up(capacity, queue@.capacity)
        &&& queue@ == QueueView::<T>::initial(queue@.capacity, needs_notify, receiver.pos()).with_token(
            sender.token(),
        ).with_token(receiver.token())
        &&& sender.state() == QueueState::Single
        &&& sender.belongs(queue@)
        &&& receiver.belongs(queue@)
        &&& sender.token() != receiver.token()
    }

    /// A queue for at least `capacity` values, with one sender and one receiver, whose receivers
    /// sleep while they wait.
    pub fn new(capacity: Index) -> (res: (Self, Sender<D, T>, Receiver<D, T>))
        requires
            capacity <= MAX_WRAP / 2 + 1,
        ensures
            Self::is_new(res, capacity, true),
    {
        Self::new_with(capacity, &BlockingWait::new())
    }

    /// A queue for at least `capacity` values, with one sender and one receiver, whose receivers
    /// wait as `wait` says.
    pub fn new_with<W: Wait>(capacity: Index, wait: &W) -> (res: (Self, Sender<D, T>, Receiver<D, T>))
        requires
            capacity <= MAX_WRAP / 2 + 1,
        ensures
            Self::is_new(res, capacity, wait.sleeps()),
    {
        Self::new_internal(capacity, wait.needs_notify())
    }

    /// A queue for at least `capacity` values, with one sender and one receiver.
    pub fn new_internal(capacity: Index, needs_notify: bool) -> (res: (
        Self,
        Sender<D, T>,
        Receiver<D, T>,
    ))
        requires
            capacity <= MAX_WRAP / 2 + 1,
        ensures
            Self::is_new(res, capacity, needs_notify),
    {
        let (mut queue, reader) = Self::new_storage(capacity, needs_notify);
        let send_token: usize = queue.get_token();
        let recv_token: usize = queue.get_token();
        proof {
            assert(queue@.manager.tokens =~= seq![send_token, recv_token]);
            assert(queue@.manager.tokens[0] == send_token);
            assert(queue@.manager.tokens[1] == recv_token);
            assert(seq![send_token].contains(send_token)) by {
                assert(seq![send_token][0] == send_token);
            }
        }
        (queue, Sender::first(send_token), Receiver::first(reader, recv_token))
    }

    /// A queue for at least `capacity` values, with one stream.
    fn new_storage(capacity: Index, needs_notify: bool) -> (res: (Self, Reader))
        requires
            capacity <= MAX_WRAP / 2 + 1,
        ensures
            res.0.wf(),
            crate::countedindex::rounds_up(capacity, res.0@.capacity),
            res.0@ == QueueView::<T>::initial(res.0@.capacity, needs_notify, res.1.pos),
    {
        let size: Index = get_valid_wrap(capacity);
        proof {
            crate::countedindex::lemma_quarter();
            crate::countedindex::lemma_power_basics(size as int);
        }
        let mut data: Vec<QueueEntry<T>> = Vec::new();
        let mut i: usize = 0;
        while i < size
            invariant
                i <= size,
                data@.len() == i,
                forall|k: int| 0 <= k < i ==> (#[trigger] data@[k]).wraps == INITIAL_QUEUE_FLAG,
            decreases size - i,
        {
            data.push(QueueEntry { val: None, wraps: INITIAL_QUEUE_FLAG });
            i = i + 1;
        }
        let (cursor, reader) = ReadCursor::new(size);
        let queue = MultiQueue {
            head: CountedIndex::new(size),
            tail_cache: 0,
            writers: 1,
            tail: cursor,
            data,
            needs_notify,
            wake: false,
            manager: MemoryManager::new(),
            log: Ghost(Seq::empty()),
            positions: Ghost(Map::empty().insert(reader.pos, 0)),
            cached_tail: Ghost(0),
            mk: PhantomData,
        };
        proof {
            queue.manager.lemma_consistent();
            assert(queue@.positions.dom() =~= queue@.cursor.streams.dom());
            assert(queue@.cursor.streams.dom() =~= queue@.cursor.group.to_set()) by {
                broadcast use vstd::seq_lib::group_seq_properties;

                assert forall|p: usize| queue@.cursor.group.contains(p) <==> p == reader.pos by {
                    crate::lists::lemma_push_contains(Seq::<usize>::empty(), reader.pos, p);
                }
            }
            vstd::arithmetic::div_mod::lemma_small_mod(0, MASK_IND as nat);
        }
        (queue, reader)
    }

    /// How many values the queue can hold.
    pub fn capacity(&self) -> (res: Index)
        requires
            self.wf(),
        ensures
            res == self@.capacity,
    {
        self.data.len()
    }

    /// How many senders there are.
    pub fn writers(&self) -> (res: usize)
        ensures
            res == self@.writers,
    {
        self.writers
    }

    /// Whether senders have to call receivers.
    pub fn needs_notify(&self) -> (res: bool)
        ensures
            res == self@.needs_notify,
    {
        self.needs_notify
    }

    /// Whether receivers are to be called. The caller has to see to it.
    pub fn take_wake(&mut self) -> (res: bool)
        requires
            old(self).wf(),
        ensures
            final(self).wf(),
            res == old(self)@.wake,
            final(self)@ == (QueueView { wake: false, ..old(self)@ }),
    {
        let res: bool = self.wake;
        self.wake = false;
        proof {
            self.lemma_same_cells(old(self));
        }
        res
    }

    /// Has receivers called.
    pub fn set_wake(&mut self)
        requires
            old(self).wf(),
        ensures
            final(self).wf(),
            final(self)@ == (QueueView { wake: true, ..old(self)@ }),
    {
        self.wake = true;
        proof {
            self.lemma_same_cells(old(self));
        }
    }

    /// One more sender. Hands its token out.
    pub fn add_writer(&mut self) -> (res: usize)
        requires
            old(self).wf(),
        ensures
            final(self).wf(),
            !old(self)@.manager.has(res),
            final(self)@ == old(self)@.with_writer(res),
    {
        let token: usize = self.get_token();
        let ghost mid = *self;
        self.writers = self.writers.wrapping_add(1);
        proof {
            self.lemma_same_cells(&mid);
        }
        token
    }

    /// One sender less.
    pub fn remove_writer(&mut self, token: usize)
        requires
            old(self).wf(),
            old(self)@.manager.has(token),
        ensures
            final(self).wf(),
            final(self)@ == old(self)@.without_writer(token),
    {
        self.remove_token(token);
        let ghost mid = *self;
        self.writers = self.writers.wrapping_sub(1);
        self.wake = true;
        proof {
            self.lemma_same_cells(&mid);
        }
    }

    /// Registers a subscriber.
    pub fn get_token(&mut self) -> (res: usize)
        requires
            old(self).wf(),
        ensures
            final(self).wf(),
            !old(self)@.manager.has(res),
            !old(self)@.manager.tofree.contains(Retired::Token(res)),
            !old(self)@.manager.waiting.contains(Retired::Token(res)),
            final(self)@ == old(self)@.with_token(res),
    {
        let res: usize = self.manager.get_token();
        proof {
            self.manager.lemma_consistent();
            self.lemma_same_cells(old(self));
        }
        res
    }

    /// Strikes a subscriber off.
    pub fn remove_token(&mut self, token: usize)
        requires
            old(self).wf(),
            old(self)@.manager.has(token),
        ensures
            final(self).wf(),
            final(self)@ == old(self)@.without_token(token),
    {
        self.manager.remove_token(token);
        proof {
            self.manager.lemma_consistent();
            self.lemma_same_cells(old(self));
            let before = old(self)@.manager;
            let items = before.tofree + before.waiting;
            let now = self@.manager.tofree + self@.manager.waiting;
            assert(now =~= items.push(Retired::Token(token)));
            assert forall|i: int| 0 <= i < now.len() && (#[trigger] now[i]) is Pos implies i < items.len()
                && now[i] == items[i] by {}
        }
    }

    /// Does for a subscriber what the flags ask for, and says whether no stream is left.
    pub fn attend(&mut self, token: usize) -> (res: bool)
        requires
            old(self).wf(),
            old(self)@.manager.has(token),
        ensures
            final(self).wf(),
            res == old(self)@.is_deserted(),
            final(self)@ == old(self)@.attended(token),
    {
        proof {
            self@.lemma_deserted();
        }
        let signal = self.manager.load_signal();
        if signal.has_action() {
            self.manager.attend(token);
            proof {
                self.manager.lemma_consistent();
                self.lemma_same_cells(old(self));
            }
            signal.get_reader()
        } else {
            proof {
                assert(self@ =~= old(self)@.attended(token));
            }
            false
        }
    }

    /// Adds a stream that stands where `reader` does.
    pub fn add_stream(&mut self, reader: &Reader) -> (res: Reader)
        requires
            old(self).wf(),
            D::shares(),
            old(self)@.is_live(reader.pos),
        ensures
            final(self).wf(),
            !old(self)@.is_live(res.pos),
            !old(self)@.cursor.left.contains(res.pos),
            final(self)@ == old(self)@.with_stream(reader.pos, res.pos),
    {
        let res = self.tail.add_stream(reader, &mut self.manager);
        proof {
            let before = old(self)@;
            self.tail.lemma_consistent();
            self.manager.lemma_consistent();
            self.positions@ = self.positions@.insert(res.pos, before.positions[reader.pos]);
            assert(self@ =~= before.with_stream(reader.pos, res.pos));
            assert(self@.positions.dom() =~= self@.cursor.streams.dom());
            assert(before.stream_wf(reader.pos));
            assert forall|pos: usize| #[trigger] self@.is_live(pos) implies self@.stream_wf(pos) by {
                if pos != res.pos {
                    assert(before.is_live(pos));
                    assert(before.stream_wf(pos));
                }
            }
            assert(before.cursor.group.to_set().contains(reader.pos));
            assert forall|n: int|
                self@.sent() - self.data@.len() <= n < self@.sent() && 0 <= n implies #[trigger] self.cell_wf(n) by {
                assert(old(self).cell_wf(n));
            }
        }
        res
    }

    /// Removes a stream, and raises the flag if none is left.
    pub fn remove_reader(&mut self, reader: &Reader)
        requires
            old(self).wf(),
            old(self)@.is_live(reader.pos),
        ensures
            final(self).wf(),
            final(self)@ == old(self)@.without_stream(reader.pos),
    {
        let none_left: bool = self.tail.remove_reader(reader, &mut self.manager);
        if none_left {
            self.manager.set_reader();
        }
        proof {
            let before = old(self)@;
            self.tail.lemma_consistent();
            self.manager.lemma_consistent();
            self.positions@ = self.positions@.remove(reader.pos);
            crate::lists::lemma_struck(before.cursor.group, reader.pos);
            assert(self@ =~= before.without_stream(reader.pos));
            assert(self@.positions.dom() =~= self@.cursor.streams.dom());
            assert forall|pos: usize| #[trigger] self@.is_live(pos) implies self@.stream_wf(pos) by {
                assert(before.is_live(pos));
                assert(before.stream_wf(pos));
            }
            if self@.cursor.group.len() > 0 {
                assert(before.cursor.group.to_set().contains(reader.pos));
                assert forall|n: int|
                    self@.sent() - self.data@.len() <= n < self@.sent() && 0 <= n implies #[trigger] self.cell_wf(
                    n,
                ) by {
                    assert(old(self).cell_wf(n));
                    assert(D::shares());
                }
            }
        }
    }

    /// One more consumer of a stream.
    pub fn dup_consumer(&mut self, reader: &Reader)
        requires
            old(self).wf(),
            old(self)@.is_live(reader.pos),
        ensures
            final(self).wf(),
            final(self)@ == old(self)@.with_consumer(reader.pos),
    {
        reader.dup_consumer(&mut self.tail);
        proof {
            self.lemma_consumers(old(self), reader.pos);
            assert(self@ =~= old(self)@.with_consumer(reader.pos));
        }
    }

    /// One consumer of a stream less. Hands back how many there were.
    pub fn remove_consumer(&mut self, reader: &Reader) -> (res: usize)
        requires
            old(self).wf(),
            old(self)@.is_live(reader.pos),
        ensures
            final(self).wf(),
            res == old(self)@.cursor.streams[reader.pos].consumers,
            final(self)@ == old(self)@.without_consumer(reader.pos),
    {
        let res: usize = reader.remove_consumer(&mut self.tail);
        proof {
            self.lemma_consumers(old(self), reader.pos);
            assert(self@ =~= old(self)@.without_consumer(reader.pos));
        }
        res
    }

    /// How many consumers a stream has.
    pub fn get_consumers(&self, reader: &Reader) -> (res: usize)
        requires
            self.wf(),
            self@.is_live(reader.pos),
        ensures
            res == self@.cursor.streams[reader.pos].consumers,
    {
        reader.get_consumers(&self.tail)
    }

    /// Whether a stream has one consumer. If so, that is noted with the stream.
    pub fn is_single(&mut self, reader: &Reader) -> (res: bool)
        requires
            old(self).wf(),
            old(self)@.is_live(reader.pos),
        ensures
            final(self).wf(),
            res == (old(self)@.cursor.streams[reader.pos].consumers == 1),
            res ==> final(self)@ == old(self)@.single(reader.pos),
            !res ==> final(self)@ == old(self)@,
    {
        let res: bool = reader.is_single(&mut self.tail);
        proof {
            if res {
                self.lemma_consumers(old(self), reader.pos);
                assert(self@ =~= old(self)@.single(reader.pos));
            } else {
                self.lemma_same_cells(old(self));
            }
        }
        res
    }

    /// What is stored stays good when the consumers of a stream change.
    proof fn lemma_consumers(&self, before: &Self, pos: usize)
        requires
            before.wf(),
            before@.is_live(pos),
            self.tail.wf(),
            self@.cursor.streams.dom().contains(pos),
            self@ == before@.with_consumers(
                pos,
                self@.cursor.streams[pos].consumers,
                self@.cursor.streams[pos].state,
            ),
            self.log == before.log,
            self.positions == before.positions,
            self.data == before.data,
            self.head == before.head,
            self.tail_cache == before.tail_cache,
            self.cached_tail == before.cached_tail,
            self.manager == before.manager,
        ensures
            self.wf(),
    {
        self.lemma_same_cells(before);
        assert(self@.cursor.streams.dom() =~= before@.cursor.streams.dom());
        assert forall|p: usize| #[trigger] self@.is_live(p) implies self@.stream_wf(p) by {
            assert(before@.stream_wf(p));
        }
    }

    /// The flag of a slot.
    pub closed spec fn flag_at(&self, slot: int) -> usize {
        self.data@[slot].wraps
    }

    /// The count of the next value of a stream.
    pub fn load_count(&self, reader: &Reader) -> (res: usize)
        requires
            self.wf(),
            self@.is_live(reader.pos),
        ensures
            res == crate::countedindex::untagged(self@.positions[reader.pos] as int),
    {
        proof {
            assert(self@.stream_wf(reader.pos));
        }
        reader.load_count(&self.tail)
    }

    /// The flag of a slot.
    pub fn load_flag(&self, slot: usize) -> (res: usize)
        requires
            self.wf(),
            slot < self@.capacity,
        ensures
            res == self.flag_at(slot as int),
            forall|pos: usize| #[trigger]
                self@.is_live(pos) && slot == self@.awaited(pos).slot ==> res == self@.awaited_flag(pos),
    {
        proof {
            assert forall|pos: usize| #[trigger]
                self@.is_live(pos) && slot == self@.awaited(pos).slot implies self.flag_at(slot as int)
                == self@.awaited_flag(pos) by {
                self.lemma_flag(pos);
                assert(self@.stream_wf(pos));
                crate::countedindex::lemma_slot_of_count(
                    self@.positions[pos] as int,
                    self.data@.len() as usize,
                );
            }
        }
        self.data[slot].wraps
    }

    /// Whether there is no reason to wait any longer for what a receiver waits for.
    pub fn wait_ready(&self, on: &WaitOn) -> (res: bool)
        requires
            self.wf(),
            on.slot < self@.capacity,
        ensures
            res == crate::wait::is_ready(on.seq, self.flag_at(on.slot as int), self@.writers),
            forall|pos: usize| #[trigger]
                self@.is_live(pos) && *on == self@.awaited(pos) ==> res == (self@.is_readable(pos)
                    || self@.writers == 0),
    {
        proof {
            assert forall|pos: usize| #[trigger]
                self@.is_live(pos) && *on == self@.awaited(pos) implies crate::wait::is_ready(
                on.seq,
                self@.awaited_flag(pos),
                self@.writers,
            ) == (self@.is_readable(pos) || self@.writers == 0) by {
                crate::laws::lemma_ready(self@, pos);
            }
        }
        check(on.seq, self.load_flag(on.slot), self.writers)
    }

    /// Looks once for what a receiver waits for, after what `stage` asks for. Says what to do
    /// before the next look, unless there is no reason to wait any longer.
    pub fn wait_step<W: Wait>(&self, waiter: &W, on: &WaitOn, stage: Stage) -> (res: Option<Stage>)
        requires
            self.wf(),
            on.slot < self@.capacity,
            exists|n: nat| stage == #[trigger] waiter.stage(n),
        ensures
            res is None <==> crate::wait::is_ready(on.seq, self.flag_at(on.slot as int), self@.writers),
            forall|pos: usize| #[trigger]
                self@.is_live(pos) && *on == self@.awaited(pos) ==> (res is None <==> self@.is_readable(pos)
                    || self@.writers == 0),
            res matches Some(next) ==> forall|n: nat| stage == #[trigger] waiter.stage(n) ==> next
                == waiter.stage(n + 1),
    {
        if self.wait_ready(on) {
            None
        } else {
            Some(waiter.wait(stage))
        }
    }

    /// What the flags of the slots are while there is a stream. The flag of a slot tells of the last
    /// place that was claimed there, and is as at the start where none was.
    pub proof fn lemma_flag_at(&self, n: int)
        requires
            self.wf(),
            !self@.is_deserted(),
            0 <= n,
        ensures
            self@.sent() - self@.capacity <= n < self@.sent() ==> self.flag_at(n % (self@.capacity as int))
                == self@.flag_of(n),
            self@.sent() <= n < self@.capacity ==> self.flag_at(n) == INITIAL_QUEUE_FLAG,
    {
        self@.lemma_deserted();
        if self@.sent() - self@.capacity <= n < self@.sent() {
            assert(self.cell_wf(n));
        }
        if self@.sent() <= n < self@.capacity {
            assert(self.data@[n].wraps == INITIAL_QUEUE_FLAG);
        }
    }

    /// A wait that is out of date ends: once the awaited place was filled, there is no reason to wait
    /// for it any longer, whoever has received its value since, and however often its slot was
    /// filled again. This holds until so much more was sent that the counts can no longer be
    /// compared.
    pub proof fn lemma_outdated_wait_ends(&self, place: nat, on: WaitOn)
        requires
            self.wf(),
            !self@.is_deserted(),
            place < self@.sent(),
            self@.log[place as int] is Some,
            self@.sent() - place <= MAX_WRAP,
            on.seq == crate::countedindex::untagged(place as int),
            on.slot == place as int % self@.capacity as int,
        ensures
            on.slot < self@.capacity,
            crate::wait::is_ready(on.seq, self.flag_at(on.slot as int), self@.writers),
    {
        let cap = self@.capacity as int;
        let sent = self@.sent() as int;
        let m = place as int;
        crate::countedindex::lemma_power_basics(cap);
        vstd::arithmetic::div_mod::lemma_mod_bound(m, cap);
        // The last place that was claimed at the slot.
        let turns = (sent - 1 - m) / cap;
        let n = m + turns * cap;
        vstd::arithmetic::div_mod::lemma_fundamental_div_mod(sent - 1 - m, cap);
        vstd::arithmetic::div_mod::lemma_div_pos_is_pos(sent - 1 - m, cap);
        vstd::arithmetic::div_mod::lemma_mod_bound(sent - 1 - m, cap);
        assert(n == sent - 1 - (sent - 1 - m) % cap) by (nonlinear_arith)
            requires
                sent - 1 - m == cap * turns + (sent - 1 - m) % cap,
                n == m + turns * cap,
        ;
        assert(turns == 0 ==> n == m) by (nonlinear_arith)
            requires
                n == m + turns * cap,
        ;
        assert(turns >= 1 ==> n - cap >= m) by (nonlinear_arith)
            requires
                n == m + turns * cap,
                cap > 0,
        ;
        vstd::arithmetic::mul::lemma_mul_is_commutative(turns, cap);
        vstd::arithmetic::div_mod::lemma_mod_multiples_vanish(turns, m, cap);
        self.lemma_flag_at(n);
        let filled = if self@.log[n] is Some {
            n
        } else {
            n - cap
        };
        assert(self.flag_at(on.slot as int) == crate::countedindex::untagged(filled));
        Self::lemma_later_is_ready(m, filled, self@.writers);
    }

    /// Whatever place is waited for, as far as the counts reach, the wait is over exactly when the place
    /// was filled or no sender is left, whoever has received the value since. The largest size that
    /// there is is left out, since two turns of it are more than can be compared.
    pub proof fn lemma_any_wait(&self, place: nat, on: WaitOn)
        requires
            self.wf(),
            exists|pos: usize| self@.positions.dom().contains(pos),
            self@.log.len() - MAX_WRAP <= place < self@.log.len() + self@.capacity,
            self@.capacity <= MAX_WRAP / 2,
            on.seq == place as int % (MASK_IND as int),
            on.slot == place as int % self@.capacity as int,
        ensures
            on.slot < self@.capacity,
            crate::wait::is_ready(on.seq, self.flag_at(on.slot as int), self@.writers) <==> {
                ||| place < self@.log.len() && self@.log[place as int] is Some
                ||| self@.writers == 0
            },
    {
        let cap = self@.capacity as int;
        let n = place as int;
        let some = choose|pos: usize| self@.positions.dom().contains(pos);
        assert(self@.is_live(some));
        assert(self@.stream_wf(some));
        crate::countedindex::lemma_power_basics(cap);
        crate::countedindex::lemma_lap();
        vstd::arithmetic::div_mod::lemma_mod_bound(n, cap);
        if n < self@.sent() && self@.log[n] is Some {
            self.lemma_outdated_wait_ends(place, on);
        } else {
            if n >= cap {
                vstd::arithmetic::div_mod::lemma_mod_multiples_vanish(1, n - cap, cap);
            }
            if n < self@.sent() {
                self.lemma_flag_at(n);
            } else if n >= cap {
                self.lemma_flag_at(n - cap);
            } else {
                vstd::arithmetic::div_mod::lemma_small_mod(n as nat, cap as nat);
                self.lemma_flag_at(n);
            }
            if n >= cap {
                crate::wait::lemma_over(n, n - cap, self@.writers);
            } else {
                crate::wait::lemma_over(n, n, self@.writers);
            }
            if n >= 2 * cap {
                crate::wait::lemma_over(n, n - 2 * cap, self@.writers);
            }
        }
    }

    /// A wait for one place ends at the flag of the same place, or of a later one that is not too
    /// far ahead.
    proof fn lemma_later_is_ready(m: int, filled: int, writers: usize)
        requires
            0 <= m <= filled,
            filled - m <= MAX_WRAP,
        ensures
            crate::wait::is_ready(
                crate::countedindex::untagged(m),
                crate::countedindex::untagged(filled),
                writers,
            ),
    {
        crate::countedindex::lemma_lap();
        vstd::arithmetic::div_mod::lemma_mod_twice(filled, MASK_IND as int);
        crate::countedindex::lemma_lead(m, filled);
    }

    /// The flag that a stream finds where it waits.
    pub(crate) proof fn lemma_flag(&self, pos: usize)
        requires
            self.wf(),
            self@.is_live(pos),
        ensures
            self.flag_at(self@.positions[pos] as int % self@.capacity as int) == self@.awaited_flag(pos),
    {
        let n = self@.positions[pos] as int;
        let cap = self.data@.len() as int;
        assert(self@.stream_wf(pos));
        assert(self@.cursor.group.to_set().contains(pos));
        if n < self@.sent() {
            assert(self.cell_wf(n));
        } else if n >= cap {
            assert(self.cell_wf(n - cap));
            crate::countedindex::lemma_power_basics(cap);
            vstd::arithmetic::div_mod::lemma_mod_multiples_vanish(1, n - cap, cap);
        } else {
            vstd::arithmetic::div_mod::lemma_small_mod(n as nat, cap as nat);
            assert(self.data@[n].wraps == INITIAL_QUEUE_FLAG);
        }
    }
}

/// A queue for at least `capacity` values that broadcasts clones, with one sender and one receiver.
pub fn multiqueue<T: Clone>(capacity: Index) -> (res: (
    MultiQueue<BCast<T>, T>,
    Sender<BCast<T>, T>,
    Receiver<BCast<T>, T>,
))
    requires
        capacity <= MAX_WRAP / 2 + 1,
    ensures
        MultiQueue::<BCast<T>, T>::is_new(res, capacity, true),
{
    MultiQueue::new(capacity)
}

/// The same, with receivers that wait as `wait` says.
pub fn multiqueue_with<T: Clone, W: Wait>(capacity: Index, wait: &W) -> (res: (
    MultiQueue<BCast<T>, T>,
    Sender<BCast<T>, T>,
    Receiver<BCast<T>, T>,
))
    requires
        capacity <= MAX_WRAP / 2 + 1,
    ensures
        MultiQueue::<BCast<T>, T>::is_new(res, capacity, wait.sleeps()),
{
    MultiQueue::new_with(capacity, wait)
}

/// What a stream receives of a value that is stored: a clone of it where all streams share the values,
/// and the value itself where there is one stream, which takes it out.
pub proof fn lemma_deliveries<T: Clone>(stored: T, out: T)
    ensures
        BCast::<T>::shares(),
        BCast::<T>::delivers(stored, out) <==> call_ensures(T::clone, (&stored,), out),
        !MPMC::<T>::shares(),
        MPMC::<T>::delivers(stored, out) <==> out == stored,
{
}

/// A position that was read from a stream is where the stream stands, and a look at it can be used to
/// move the stream on at once.
pub proof fn lemma_look<D: DoDrop<T>, T>(queue: &MultiQueue<D, T>, attempt: &ReadAttempt, pos: usize)
    requires
        queue.wf(),
        queue@.positions.dom().contains(pos),
        queue.looks_at(attempt, pos),
    ensures
        attempt.reader.pos == pos,
        attempt.linked.loaded_vals == queue@.positions[pos] as int % (MASK_IND as int),
        attempt.linked.mask + 1 == queue@.capacity,
        attempt.succeeds(queue@.cursor.streams[pos]),
        queue.is_fresh(attempt) <==> queue@.positions[pos] < queue@.log.len()
            && queue@.log[queue@.positions[pos] as int] is Some,
{
    queue.lemma_consistent();
    assert(queue@.stream_wf(pos));
    crate::countedindex::lemma_arithmetic(0, 0, queue@.positions[pos] as int, attempt.linked, 0);
}

/// Room was found for the head that was read, as long as it is the head, exactly when the senders have
/// seen every stream less than a turn behind it.
pub proof fn lemma_room_found<D: DoDrop<T>, T>(queue: &MultiQueue<D, T>, transaction: &Transaction)
    requires
        queue.wf(),
        queue.is_current(transaction),
    ensures
        queue.has_room(transaction) <==> queue@.log.len() < queue@.cached_tail + queue@.capacity,
        queue.has_room(transaction) ==> forall|pos: usize| #[trigger]
            queue@.positions.dom().contains(pos) ==> queue@.log.len() - queue@.positions[pos]
                < queue@.capacity,
{
    queue.lemma_consistent();
    assert forall|pos: usize| #[trigger] queue@.is_live(pos) implies queue@.stream_wf(pos) by {}
}

} // verus!
