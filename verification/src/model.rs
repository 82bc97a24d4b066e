//! What a queue is, apart from how it is stored.
//!
//! All values ever sent form one log. Each stream has a position in the log, from which it
//! receives one value after the other. A queue of a given capacity holds the part of the log
//! between the slowest stream and the end.
use vstd::prelude::*;

use crate::atomicsignal::AtomicSignal;
use crate::countedindex::{Index, INITIAL_QUEUE_FLAG};
use crate::errors::{RecvError, TryRecvError, TrySendError};
use crate::memory::{ManagerView, Retired};
use crate::multiqueue::DoDrop;
use crate::read_cursor::{CursorView, ReaderState, StreamView};
use crate::wait::{Blocking, WaitOn};

verus! {

/// The state of a queue.
#[verifier::ext_equal]
#[verifier::reject_recursive_types(T)]
pub struct QueueView<T> {
    /// How many values the queue can hold.
    pub capacity: Index,
    /// All places that were ever claimed for values, with the values that were put there. A
    /// place that was claimed but not filled holds nothing.
    pub log: Seq<Option<T>>,
    /// The position of each subscribed stream in the log.
    pub positions: Map<usize, nat>,
    /// What senders last saw of the position of the slowest stream.
    pub cached_tail: nat,
    /// How many senders there are.
    pub writers: usize,
    /// Whether receivers wait for a call when something was sent.
    pub needs_notify: bool,
    /// Whether receivers are to be called.
    pub wake: bool,
    /// The streams, as they are stored.
    pub cursor: CursorView,
    /// What waits to be released, and the subscribers.
    pub manager: ManagerView,
}

impl<T> QueueView<T> {
    /// The stream is subscribed.
    #[verifier::inline]
    pub open spec fn is_live(self, pos: usize) -> bool {
        self.positions.dom().contains(pos)
    }

    /// No stream is subscribed.
    pub open spec fn is_deserted(self) -> bool {
        self.positions.dom() == Set::<usize>::empty()
    }

    /// How many places were claimed so far.
    pub open spec fn sent(self) -> nat {
        self.log.len()
    }

    /// How many places a stream has before it.
    pub open spec fn backlog(self, pos: usize) -> int {
        self.sent() - self.positions[pos]
    }

    /// The stream can receive a value.
    pub open spec fn is_readable(self, pos: usize) -> bool {
        &&& self.positions[pos] < self.sent()
        &&& self.log[self.positions[pos] as int] is Some
    }

    /// The value that the stream receives next.
    pub open spec fn next_value(self, pos: usize) -> T {
        self.log[self.positions[pos] as int]->0
    }

    /// A stream has as much before it as the queue can hold.
    pub open spec fn is_full(self) -> bool {
        exists|pos: usize| #[trigger] self.is_live(pos) && self.backlog(pos) == self.capacity
    }

    /// By what senders last saw, the queue is full.
    pub open spec fn cache_spent(self) -> bool {
        self.cached_tail + self.capacity == self.sent()
    }

    /// `p` is the position of the slowest stream, or the end of the log if there is no stream.
    pub open spec fn is_slowest(self, p: nat) -> bool {
        &&& forall|pos: usize| #[trigger] self.is_live(pos) ==> p <= self.positions[pos]
        &&& p == self.sent() || exists|pos: usize| #[trigger] self.is_live(pos) && p == self.positions[pos]
        &&& p <= self.sent()
    }

    /// The position of the slowest stream, or the end of the log if there is no stream.
    pub open spec fn slowest(self) -> nat {
        choose|p: nat| self.is_slowest(p)
    }

    /// What is kept of the slowest stream when a sender is done looking for space.
    pub open spec fn refreshed_tail(self) -> nat {
        if self.cache_spent() {
            self.slowest()
        } else {
            self.cached_tail
        }
    }

    /// One more place was claimed for a value.
    pub open spec fn claimed(self) -> QueueView<T> {
        QueueView { log: self.log.push(None), cached_tail: self.refreshed_tail(), ..self }
    }

    /// The place `n` was claimed and is not filled yet.
    pub open spec fn is_open(self, n: nat) -> bool {
        n < self.sent() && self.log[n as int] is None
    }

    /// The place `n` was filled.
    pub open spec fn published(self, n: nat, val: T) -> QueueView<T> {
        QueueView { log: self.log.update(n as int, Some(val)), ..self }
    }

    /// A value was sent.
    pub open spec fn pushed(self, val: T) -> QueueView<T> {
        QueueView { log: self.log.push(Some(val)), cached_tail: self.refreshed_tail(), ..self }
    }

    /// A stream has moved on by one value.
    pub open spec fn advanced(self, pos: usize) -> QueueView<T> {
        let stream = self.cursor.streams[pos];
        self.moved(
            pos,
            if stream.state == ReaderState::Multi && stream.consumers == 1 {
                ReaderState::Single
            } else {
                stream.state
            },
        )
    }

    /// A stream has moved on by one value that was looked at in its place.
    pub open spec fn viewed(self, pos: usize) -> QueueView<T> {
        self.moved(pos, self.cursor.streams[pos].state)
    }

    /// Why a stream cannot receive a value, and at which slot the value is awaited.
    pub open spec fn why_empty(self, pos: usize) -> (Option<usize>, TryRecvError) {
        if self.writers == 0 {
            (None, TryRecvError::Disconnected)
        } else {
            (Some((self.positions[pos] as int % self.capacity as int) as usize), TryRecvError::Empty)
        }
    }

    /// A stream has moved on by one value, and is in the given state.
    pub open spec fn moved(self, pos: usize, state: ReaderState) -> QueueView<T> {
        let stream = self.cursor.streams[pos];
        let next: nat = self.positions[pos] + 1;
        QueueView {
            positions: self.positions.insert(pos, next),
            cursor: self.cursor.with_state(
                pos,
                StreamView { count: crate::countedindex::untagged(next as int), state, ..stream },
            ),
            ..self
        }
    }

    /// A new queue with one stream at `pos` and one sender, before any of them is registered as
    /// a subscriber.
    pub open spec fn initial(capacity: Index, needs_notify: bool, pos: usize) -> QueueView<T> {
        QueueView {
            capacity,
            log: Seq::empty(),
            positions: Map::empty().insert(pos, 0),
            cached_tail: 0,
            writers: 1,
            needs_notify,
            wake: false,
            cursor: CursorView {
                group: Seq::empty(),
                streams: Map::empty(),
                left: Set::empty(),
                last_pos: 0,
            }.with_stream(pos, 0, capacity),
            manager: ManagerView::initial(),
        }
    }

    /// The subscriber with `token` did what the flags ask for.
    pub open spec fn attended(self, token: usize) -> QueueView<T> {
        QueueView { manager: self.manager.attended(token), ..self }
    }

    /// A subscriber with `token` has come.
    pub open spec fn with_token(self, token: usize) -> QueueView<T> {
        QueueView { manager: self.manager.with_token(token), ..self }
    }

    /// The subscriber with `token` has left.
    pub open spec fn without_token(self, token: usize) -> QueueView<T> {
        QueueView { manager: self.manager.without_token(token), ..self }
    }

    /// A sender with `token` has come.
    pub open spec fn with_writer(self, token: usize) -> QueueView<T> {
        QueueView {
            writers: vstd::wrapping::usize_specs::wrapping_add(self.writers, 1),
            ..self.with_token(token)
        }
    }

    /// The sender with `token` has left. Receivers are called, since they may wait for it.
    pub open spec fn without_writer(self, token: usize) -> QueueView<T> {
        QueueView {
            writers: vstd::wrapping::usize_specs::wrapping_sub(self.writers, 1),
            wake: true,
            ..self.without_token(token)
        }
    }

    /// A stream at `pos` has come, which stands where the stream at `from` does.
    pub open spec fn with_stream(self, from: usize, pos: usize) -> QueueView<T> {
        QueueView {
            positions: self.positions.insert(pos, self.positions[from]),
            cursor: self.cursor.with_stream(
                pos,
                self.cursor.streams[from].count,
                self.cursor.streams[from].wrap,
            ).recycled(self.manager.released()),
            manager: self.manager.freed(Retired::Group(self.cursor.group)),
            ..self
        }
    }

    /// The stream at `pos` was removed. If it was the last one, the flags say so.
    pub open spec fn without_stream(self, pos: usize) -> QueueView<T> {
        let mid = self.manager.freed(Retired::Group(self.cursor.group));
        let end = mid.freed(Retired::Pos(pos));
        let cursor = self.cursor.without_stream(pos).recycled(self.manager.released()).recycled(
            mid.released(),
        );
        QueueView {
            positions: self.positions.remove(pos),
            cursor,
            manager: if cursor.group.len() == 0 {
                ManagerView { signal: AtomicSignal { reader: true, ..end.signal }, ..end }
            } else {
                end
            },
            ..self
        }
    }

    /// What is stored about the stream at `pos`, other than its position, has become as given.
    pub open spec fn with_consumers(self, pos: usize, consumers: usize, state: ReaderState) -> QueueView<T> {
        QueueView {
            cursor: self.cursor.with_state(
                pos,
                StreamView { consumers, state, ..self.cursor.streams[pos] },
            ),
            ..self
        }
    }

    /// One more consumer of the stream at `pos`.
    pub open spec fn with_consumer(self, pos: usize) -> QueueView<T> {
        let stream = self.cursor.streams[pos];
        self.with_consumers(
            pos,
            vstd::wrapping::usize_specs::wrapping_add(stream.consumers, 1),
            if stream.consumers == 1 {
                ReaderState::Multi
            } else {
                stream.state
            },
        )
    }

    /// One consumer of the stream at `pos` less.
    pub open spec fn without_consumer(self, pos: usize) -> QueueView<T> {
        let stream = self.cursor.streams[pos];
        self.with_consumers(
            pos,
            vstd::wrapping::usize_specs::wrapping_sub(stream.consumers, 1),
            stream.state,
        )
    }

    /// The consumer with `token` has left the stream at `pos`. The last consumer takes the stream
    /// and its own token along.
    pub open spec fn left_by(self, pos: usize, token: usize) -> QueueView<T> {
        let gone = self.without_consumer(pos);
        if self.cursor.streams[pos].consumers == 1 {
            gone.without_stream(pos).without_token(token)
        } else {
            gone
        }
    }

    /// A consumer with `new` has come to the stream at `pos`, and then the one with `token` has
    /// left it.
    pub open spec fn replaced(self, pos: usize, token: usize, new: usize) -> QueueView<T> {
        self.with_consumer(pos).with_token(new).left_by(pos, token)
    }

    /// The stream at `pos` is known to have one consumer.
    pub open spec fn single(self, pos: usize) -> QueueView<T> {
        self.with_consumers(pos, self.cursor.streams[pos].consumers, ReaderState::Single)
    }

    /// The flag of the slot of place `n`, when the place one turn later was not claimed yet.
    pub open spec fn flag_of(self, n: int) -> usize {
        if self.log[n] is Some {
            crate::countedindex::untagged(n)
        } else if n >= self.capacity {
            crate::countedindex::untagged(n - self.capacity)
        } else {
            INITIAL_QUEUE_FLAG
        }
    }

    /// The flag of the slot where the stream at `pos` finds its next value.
    pub open spec fn awaited_flag(self, pos: usize) -> usize {
        let n = self.positions[pos] as int;
        if n < self.sent() {
            self.flag_of(n)
        } else if n >= self.capacity {
            self.flag_of(n - self.capacity)
        } else {
            INITIAL_QUEUE_FLAG
        }
    }

    /// What the stream at `pos` waits for, when it cannot receive a value.
    pub open spec fn awaited(self, pos: usize) -> WaitOn {
        WaitOn {
            seq: crate::countedindex::untagged(self.positions[pos] as int),
            slot: (self.positions[pos] as int % self.capacity as int) as usize,
        }
    }

    /// `res` and `after` are what comes of a try of the sender with `token` to send `val`.
    pub open spec fn sends(
        self,
        token: usize,
        val: T,
        res: Result<(), TrySendError<T>>,
        after: QueueView<T>,
    ) -> bool {
        let seen = self.attended(token);
        if self.is_deserted() {
            &&& res == Err::<(), TrySendError<T>>(TrySendError::Disconnected(val))
            &&& after == seen
        } else if self.is_full() {
            &&& res == Err::<(), TrySendError<T>>(TrySendError::Full(val))
            &&& after == seen
        } else {
            &&& res is Ok
            &&& after == (QueueView { wake: self.wake || self.needs_notify, ..seen.pushed(val) })
        }
    }

    /// `res` and `after` are what comes of a try to receive from the stream at `pos`.
    pub open spec fn receives<D: DoDrop<T>>(
        self,
        pos: usize,
        res: Result<T, TryRecvError>,
        after: QueueView<T>,
    ) -> bool {
        if self.is_readable(pos) {
            &&& res matches Ok(val) && D::delivers(self.next_value(pos), val)
            &&& after == self.advanced(pos)
        } else {
            &&& res == Err::<T, TryRecvError>(self.why_empty(pos).1)
            &&& after == self
        }
    }

    /// `res` and `after` are what comes of receiving from the stream at `pos`, where the receiver
    /// waits for a value unless there are no senders.
    pub open spec fn awaits<D: DoDrop<T>>(
        self,
        pos: usize,
        res: Blocking<Result<T, RecvError>>,
        after: QueueView<T>,
    ) -> bool {
        if self.is_readable(pos) {
            &&& res matches Blocking::Done(Ok(val)) && D::delivers(self.next_value(pos), val)
            &&& after == self.advanced(pos)
        } else {
            &&& res == if self.writers == 0 {
                Blocking::Done(Err::<T, RecvError>(RecvError))
            } else {
                Blocking::Wait(self.awaited(pos))
            }
            &&& after == self
        }
    }

    /// The next value of the stream at `pos`, if any, can be looked at with `op`.
    pub open spec fn can_view<R, F: FnOnce(&T) -> R>(self, pos: usize, op: F) -> bool {
        self.is_readable(pos) ==> op.requires((&self.next_value(pos),))
    }

    /// `val` and `after` are what comes of looking at the next value of the stream at `pos` with
    /// `op`.
    pub open spec fn views<R, F: FnOnce(&T) -> R>(
        self,
        pos: usize,
        op: F,
        val: R,
        after: QueueView<T>,
    ) -> bool {
        &&& op.ensures((&self.next_value(pos),), val)
        &&& after == self.viewed(pos)
    }

    /// `res` and `after` are what comes of a try to look at the next value of the stream at `pos`
    /// with `op`.
    pub open spec fn tries_view<R, F: FnOnce(&T) -> R>(
        self,
        pos: usize,
        op: F,
        res: Result<R, (F, TryRecvError)>,
        after: QueueView<T>,
    ) -> bool {
        if self.is_readable(pos) {
            res matches Ok(val) && self.views(pos, op, val, after)
        } else {
            &&& res == Err::<R, (F, TryRecvError)>((op, self.why_empty(pos).1))
            &&& after == self
        }
    }

    /// `res` and `after` are what comes of looking at the next value of the stream at `pos` with
    /// `op`, where the receiver waits for a value unless there are no senders.
    pub open spec fn awaits_view<R, F: FnOnce(&T) -> R>(
        self,
        pos: usize,
        op: F,
        res: Result<R, (F, Blocking<RecvError>)>,
        after: QueueView<T>,
    ) -> bool {
        if self.is_readable(pos) {
            res matches Ok(val) && self.views(pos, op, val, after)
        } else {
            &&& res == Err::<R, (F, Blocking<RecvError>)>(
                (
                    op,
                    if self.writers == 0 {
                        Blocking::Done(RecvError)
                    } else {
                        Blocking::Wait(self.awaited(pos))
                    },
                ),
            )
            &&& after == self
        }
    }

    /// The state of a queue is consistent. A stream has at most as much before it as the queue
    /// can hold, and everything behind it was filled.
    pub open spec fn wf(self) -> bool {
        &&& crate::countedindex::valid_wrap(self.capacity)
        &&& self.cursor.wf()
        &&& self.cursor.kept_by(self.manager)
        &&& self.positions.dom() == self.cursor.streams.dom()
        &&& self.manager.in_step()
        &&& self.manager.signal.reader == (self.cursor.group.len() == 0)
        &&& self.cached_tail <= self.sent() <= self.cached_tail + self.capacity
        &&& forall|pos: usize| #[trigger] self.is_live(pos) ==> self.stream_wf(pos)
    }

    /// What holds of each stream.
    pub open spec fn stream_wf(self, pos: usize) -> bool {
        &&& self.positions[pos] <= self.sent() <= self.positions[pos] + self.capacity
        &&& self.cached_tail <= self.positions[pos]
        &&& self.cursor.streams[pos].count == crate::countedindex::untagged(self.positions[pos] as int)
        &&& self.cursor.streams[pos].wrap == self.capacity
        &&& forall|n: int| 0 <= n < self.positions[pos] ==> (#[trigger] self.log[n]) is Some
    }

    /// There are streams as long as any is listed.
    pub proof fn lemma_deserted(self)
        requires
            self.wf(),
        ensures
            self.is_deserted() == self.manager.signal.reader,
    {
        let group = self.cursor.group;
        if group.len() > 0 {
            assert(group.to_set().contains(group[0]));
            assert(self.is_live(group[0]));
        } else {
            assert(self.positions.dom() =~= Set::<usize>::empty());
        }
    }

    /// The position of the slowest stream is determined.
    pub proof fn lemma_slowest(self, p: nat)
        requires
            self.is_slowest(p),
        ensures
            self.slowest() == p,
    {
        let q = self.slowest();
        assert(self.is_slowest(q));
    }
}

} // verus!
