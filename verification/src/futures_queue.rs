//! A queue whose senders and receivers are tasks.
use vstd::prelude::*;

use crate::countedindex::{Index, MAX_WRAP};
use crate::errors::{RecvError, TryRecvError, TrySendError};
use crate::futures_wait::{FuturesWait, ParkView, SendStep, WaitStep, Wakeup, MAX_INLINE};
use crate::model::QueueView;
use crate::multiqueue::{DoDrop, MultiQueue};
use crate::receiver::{Receiver, SingleReceiver};
use crate::sender::Sender;
use crate::wait::{Blocking, Stage, WaitOn, DEFAULT_TRY_SPINS, DEFAULT_YIELD_SPINS};

verus! {

/// A queue, the receiving tasks that wait for values, and the sending tasks that wait for room.
#[verifier::reject_recursive_types(D)]
#[verifier::reject_recursive_types(T)]
pub struct FuturesQueue<D: DoDrop<T>, T> {
    queue: MultiQueue<D, T>,
    wait: FuturesWait,
    prod_wait: FuturesWait,
    prod_wake: bool,
}

/// The state of a `FuturesQueue`.
#[verifier::ext_equal]
#[verifier::reject_recursive_types(T)]
pub struct FuturesView<T> {
    pub queue: QueueView<T>,
    /// The receiving tasks that wait.
    pub wait: ParkView,
    /// The sending tasks that wait.
    pub prod_wait: ParkView,
    /// Whether the sending tasks are to be called.
    pub prod_wake: bool,
}

impl<T> FuturesView<T> {
    /// The same tasks with another state of the queue.
    pub open spec fn with_queue(self, queue: QueueView<T>) -> FuturesView<T> {
        FuturesView { queue, ..self }
    }

    /// The sending tasks are to be called.
    pub open spec fn with_room(self) -> FuturesView<T> {
        FuturesView { prod_wake: true, ..self }
    }

    /// The receiving tasks that are to be called.
    pub open spec fn receivers_to_call(self) -> Seq<u64> {
        if self.queue.wake {
            self.wait.parked
        } else {
            Seq::empty()
        }
    }

    /// The receiving tasks that were to be called are.
    pub open spec fn receivers_called(self) -> FuturesView<T> {
        if self.queue.wake {
            FuturesView {
                queue: QueueView { wake: false, ..self.queue },
                wait: self.wait.emptied(),
                ..self
            }
        } else {
            self
        }
    }

    /// The sending tasks that are to be called.
    pub open spec fn senders_to_call(self) -> Seq<u64> {
        if self.prod_wake {
            self.prod_wait.parked
        } else {
            Seq::empty()
        }
    }

    /// The sending tasks that were to be called are.
    pub open spec fn senders_called(self) -> FuturesView<T> {
        if self.prod_wake {
            FuturesView { prod_wait: self.prod_wait.emptied(), prod_wake: false, ..self }
        } else {
            self
        }
    }
}

impl<D: DoDrop<T>, T> View for FuturesQueue<D, T> {
    type V = FuturesView<T>;

    closed spec fn view(&self) -> FuturesView<T> {
        FuturesView {
            queue: self.queue@,
            wait: self.wait@,
            prod_wait: self.prod_wait@,
            prod_wake: self.prod_wake,
        }
    }
}

/// A queue for at least `capacity` values between tasks, with one sender and one receiver.
pub fn futures_multiqueue<D: DoDrop<T>, T>(capacity: Index) -> (res: (
    FuturesQueue<D, T>,
    FuturesSender<D, T>,
    FuturesReceiver<D, T>,
))
    requires
        capacity <= MAX_WRAP / 2 + 1,
    ensures
        FuturesQueue::is_new(res, capacity),
{
    let wait = FuturesWait::new();
    let prod_wait = FuturesWait::new();
    let (queue, tx, rx) = MultiQueue::new_internal(capacity, wait.needs_notify());
    (
        FuturesQueue { queue, wait, prod_wait, prod_wake: false },
        FuturesSender { writer: tx },
        FuturesReceiver { reader: rx },
    )
}

impl<D: DoDrop<T>, T> FuturesQueue<D, T> {
    /// The queue is stored as it should be, and its senders call receivers.
    pub closed spec fn wf(&self) -> bool {
        &&& self.queue.wf()
        &&& self.queue@.needs_notify
    }

    /// The queue that the tasks share.
    pub closed spec fn inner(&self) -> MultiQueue<D, T> {
        self.queue
    }

    /// The queue, the sender and the receiver are those of a new queue for at least `capacity`
    /// values, without any task that waits.
    pub open spec fn is_new(
        parts: (Self, FuturesSender<D, T>, FuturesReceiver<D, T>),
        capacity: Index,
    ) -> bool {
        let (queue, sender, receiver) = parts;
        let usual = ParkView {
            first: DEFAULT_TRY_SPINS,
            yields: DEFAULT_YIELD_SPINS,
            parked: Seq::empty(),
        };
        &&& queue.wf()
        &&& MultiQueue::is_new((queue.inner(), sender.sender(), receiver.receiver()), capacity, true)
        &&& queue@ == (FuturesView {
            queue: queue.inner()@,
            wait: usual,
            prod_wait: usual,
            prod_wake: false,
        })
    }

    /// The state of the queue is consistent.
    pub proof fn lemma_consistent(&self)
        requires
            self.wf(),
        ensures
            self.inner().wf(),
            self@.queue == self.inner()@,
            self@.queue.wf(),
            self@.queue.needs_notify,
            !D::shares() ==> self@.queue.cursor.group.len() <= 1,
    {
        self.queue.lemma_consistent();
    }

    /// A task's wait that is out of date ends, as that of a thread does: once the awaited place was
    /// filled, a look finds that there is no reason to wait, whoever has received the value since.
    pub proof fn lemma_outdated_wait_ends(&self, place: nat, on: WaitOn)
        requires
            self.wf(),
            !self@.queue.is_deserted(),
            place < self@.queue.sent(),
            self@.queue.log[place as int] is Some,
            self@.queue.sent() - place <= MAX_WRAP,
            on.seq == crate::countedindex::untagged(place as int),
            on.slot == place as int % self@.queue.capacity as int,
        ensures
            on.slot < self@.queue.capacity,
            crate::wait::is_ready(on.seq, self.inner().flag_at(on.slot as int), self@.queue.writers),
    {
        self.lemma_consistent();
        self.inner().lemma_outdated_wait_ends(place, on);
    }

    /// What is done before the first look of a task that waits for a value.
    pub fn start_wait(&self) -> (res: Stage)
        ensures
            res == self@.wait.stage(0),
    {
        self.wait.start()
    }

    /// Looks once for what a receiving task waits for, after what `stage` asks for. In the last
    /// look, parks the task if there is a reason to wait.
    pub fn fut_wait(&mut self, stage: Stage, on: &WaitOn, task: u64) -> (res: WaitStep)
        requires
            old(self).wf(),
            on.slot < old(self)@.queue.capacity,
            exists|n: nat| stage == #[trigger] old(self)@.wait.stage(n),
        ensures
            final(self).wf(),
            final(self).inner() == old(self).inner(),
            res is Parked ==> stage == Stage::Lock,
            res matches WaitStep::Again(next) ==> stage != Stage::Lock && forall|n: nat| stage == #[trigger] old(
                self,
            )@.wait.stage(n) ==> next == old(self)@.wait.stage(n + 1),
            final(self)@ == if res is Parked {
                FuturesView { wait: old(self)@.wait.with_task(task), ..old(self)@ }
            } else {
                old(self)@
            },
            res is Ready <==> crate::wait::is_ready(
                on.seq,
                old(self).inner().flag_at(on.slot as int),
                old(self)@.queue.writers,
            ),
            forall|pos: usize| #[trigger]
                old(self)@.queue.is_live(pos) && *on == old(self)@.queue.awaited(pos) ==> (res is Ready
                    <==> old(self)@.queue.is_readable(pos) || old(self)@.queue.writers == 0),
    {
        proof {
            self.lemma_consistent();
            assert forall|pos: usize| #[trigger]
                self@.queue.is_live(pos) && *on == self@.queue.awaited(pos) implies crate::wait::is_ready(
                on.seq,
                self@.queue.awaited_flag(pos),
                self@.queue.writers,
            ) == (self@.queue.is_readable(pos) || self@.queue.writers == 0) by {
                crate::laws::lemma_ready(self@.queue, pos);
            }
        }
        let at: usize = self.queue.load_flag(on.slot);
        self.wait.fut_wait(stage, on.seq, at, self.queue.writers(), task)
    }

    /// Hands out the receiving tasks that are to be called.
    pub fn notify_receivers(&mut self) -> (res: Wakeup)
        requires
            old(self).wf(),
        ensures
            final(self).wf(),
            res@ == old(self)@.receivers_to_call(),
            res is Nobody <==> old(self)@.receivers_to_call().len() == 0,
            res is Kept <==> old(self)@.receivers_to_call().len() > MAX_INLINE,
            final(self)@ == old(self)@.receivers_called(),
    {
        if self.queue.take_wake() {
            self.wait.notify()
        } else {
            proof {
                assert(self@ =~= old(self)@);
            }
            Wakeup::Nobody
        }
    }

    /// Hands out the sending tasks that are to be called.
    pub fn notify_senders(&mut self) -> (res: Wakeup)
        requires
            old(self).wf(),
        ensures
            final(self).wf(),
            res@ == old(self)@.senders_to_call(),
            res is Nobody <==> old(self)@.senders_to_call().len() == 0,
            res is Kept <==> old(self)@.senders_to_call().len() > MAX_INLINE,
            final(self)@ == old(self)@.senders_called(),
    {
        if self.prod_wake {
            self.prod_wake = false;
            self.prod_wait.notify()
        } else {
            Wakeup::Nobody
        }
    }

    /// What is done before the first try of a sending task.
    pub fn start_stage(&self) -> (res: Stage)
        ensures
            res == self@.prod_wait.stage(0),
    {
        self.prod_wait.start()
    }
}

/// A sender whose task can wait for room.
#[verifier::reject_recursive_types(D)]
#[verifier::reject_recursive_types(T)]
pub struct FuturesSender<D: DoDrop<T>, T> {
    writer: Sender<D, T>,
}

impl<D: DoDrop<T>, T> FuturesSender<D, T> {
    /// The sender.
    pub closed spec fn sender(&self) -> Sender<D, T> {
        self.writer
    }

    /// Tries to send a value. If there is no room, or no stream, hands the value back.
    pub fn try_send(&mut self, queue: &mut FuturesQueue<D, T>, val: T) -> (res: Result<(), TrySendError<T>>)
        requires
            old(queue).wf(),
            old(self).sender().belongs(old(queue)@.queue),
        ensures
            final(queue).wf(),
            final(queue)@ == old(queue)@.with_queue(final(queue)@.queue),
            old(queue)@.queue.sends(old(self).sender().token(), val, res, final(queue)@.queue),
            final(self).sender().token() == old(self).sender().token(),
            final(self).sender().state() == old(self).sender().state().after_send(old(queue)@.queue),
    {
        self.writer.try_send(&mut queue.queue, val)
    }

    /// Tries to send a value, after what `stage` asks for. If there is no room, says what to do
    /// before the next try, and after the last one parks the task.
    pub fn start_send(&mut self, queue: &mut FuturesQueue<D, T>, stage: Stage, msg: T, task: u64) -> (res:
        SendStep<T>)
        requires
            old(queue).wf(),
            old(self).sender().belongs(old(queue)@.queue),
            exists|n: nat| stage == #[trigger] old(queue)@.prod_wait.stage(n),
        ensures
            final(queue).wf(),
            old(queue)@.queue.sends(
                old(self).sender().token(),
                msg,
                res.outcome(),
                final(queue)@.queue,
            ),
            res is NotReady ==> stage == Stage::Lock,
            res is Again ==> stage != Stage::Lock && forall|n: nat| stage
                == #[trigger] old(queue)@.prod_wait.stage(n) ==> res->Again_0 == old(queue)@.prod_wait.stage(n + 1),
            final(queue)@ == (FuturesView {
                queue: final(queue)@.queue,
                prod_wait: if res is NotReady {
                    old(queue)@.prod_wait.with_task(task)
                } else {
                    old(queue)@.prod_wait
                },
                ..old(queue)@
            }),
            final(self).sender().token() == old(self).sender().token(),
            final(self).sender().state() == old(self).sender().state().after_send(old(queue)@.queue),
    {
        let tried = self.writer.try_send(&mut queue.queue, msg);
        queue.prod_wait.send_or_park(stage, tried, task)
    }

    /// Takes the sender off the queue.
    pub fn unsubscribe(self, queue: &mut FuturesQueue<D, T>)
        requires
            old(queue).wf(),
            self.sender().belongs(old(queue)@.queue),
        ensures
            final(queue).wf(),
            final(queue)@ == old(queue)@.with_queue(
                old(queue)@.queue.without_writer(self.sender().token()),
            ),
    {
        self.writer.unsubscribe(&mut queue.queue)
    }

    /// One more sender for the queue.
    pub fn clone(&mut self, queue: &mut FuturesQueue<D, T>) -> (res: FuturesSender<D, T>)
        requires
            old(queue).wf(),
        ensures
            final(queue).wf(),
            !old(queue)@.queue.manager.has(res.sender().token()),
            final(queue)@ == old(queue)@.with_queue(
                old(queue)@.queue.with_writer(res.sender().token()),
            ),
            res.sender().belongs(final(queue)@.queue),
            res.sender().state() == crate::sender::QueueState::Multi,
            final(self).sender().token() == old(self).sender().token(),
            final(self).sender().state() == crate::sender::QueueState::Multi,
    {
        FuturesSender { writer: self.writer.clone(&mut queue.queue) }
    }
}

/// A receiver whose task can wait for values.
#[verifier::reject_recursive_types(D)]
#[verifier::reject_recursive_types(T)]
pub struct FuturesReceiver<D: DoDrop<T>, T> {
    reader: Receiver<D, T>,
}

impl<D: DoDrop<T>, T> FuturesReceiver<D, T> {
    /// The receiver.
    pub closed spec fn receiver(&self) -> Receiver<D, T> {
        self.reader
    }

    /// Tries to receive the next value of the stream, without waiting for it.
    pub fn try_recv(&self, queue: &mut FuturesQueue<D, T>) -> (res: Result<T, TryRecvError>)
        requires
            old(queue).wf(),
            self.receiver().belongs(old(queue)@.queue),
        ensures
            final(queue).wf(),
            final(queue)@ == old(queue)@.with_queue(final(queue)@.queue),
            old(queue)@.queue.attended(self.receiver().token()).receives::<D>(
                self.receiver().pos(),
                res,
                final(queue)@.queue,
            ),
    {
        self.reader.try_recv(&mut queue.queue)
    }

    /// Receives the next value of the stream. If it is not there yet, says what to wait for
    /// before `recv_again`.
    pub fn recv(&self, queue: &mut FuturesQueue<D, T>) -> (res: Blocking<Result<T, RecvError>>)
        requires
            old(queue).wf(),
            self.receiver().belongs(old(queue)@.queue),
        ensures
            final(queue).wf(),
            final(queue)@ == old(queue)@.with_queue(final(queue)@.queue),
            old(queue)@.queue.attended(self.receiver().token()).awaits::<D>(
                self.receiver().pos(),
                res,
                final(queue)@.queue,
            ),
    {
        self.reader.recv(&mut queue.queue)
    }

    /// Goes on with `recv` after a wait.
    pub fn recv_again(&self, queue: &mut FuturesQueue<D, T>) -> (res: Blocking<Result<T, RecvError>>)
        requires
            old(queue).wf(),
            self.receiver().belongs(old(queue)@.queue),
        ensures
            final(queue).wf(),
            final(queue)@ == old(queue)@.with_queue(final(queue)@.queue),
            old(queue)@.queue.awaits::<D>(self.receiver().pos(), res, final(queue)@.queue),
    {
        self.reader.recv_again(&mut queue.queue)
    }

    /// The next value of the stream, or nothing if there are no senders. If the value is not there
    /// yet, says what to wait for before `poll_again`.
    pub fn poll(&self, queue: &mut FuturesQueue<D, T>) -> (res: Blocking<Option<T>>)
        requires
            old(queue).wf(),
            self.receiver().belongs(old(queue)@.queue),
        ensures
            final(queue).wf(),
            polled(old(queue)@, res, final(queue)@),
            crate::iterators::yields::<D, T>(
                old(queue)@.queue.attended(self.receiver().token()),
                self.receiver().pos(),
                res,
                final(queue)@.queue,
            ),
    {
        match self.reader.recv(&mut queue.queue) {
            Blocking::Done(Ok(msg)) => {
                queue.prod_wake = true;
                Blocking::Done(Some(msg))
            },
            Blocking::Done(Err(_)) => Blocking::Done(None),
            Blocking::Wait(on) => Blocking::Wait(on),
        }
    }

    /// Goes on with `poll` after a wait.
    pub fn poll_again(&self, queue: &mut FuturesQueue<D, T>) -> (res: Blocking<Option<T>>)
        requires
            old(queue).wf(),
            self.receiver().belongs(old(queue)@.queue),
        ensures
            final(queue).wf(),
            polled(old(queue)@, res, final(queue)@),
            crate::iterators::yields::<D, T>(
                old(queue)@.queue,
                self.receiver().pos(),
                res,
                final(queue)@.queue,
            ),
    {
        match self.reader.recv_again(&mut queue.queue) {
            Blocking::Done(Ok(msg)) => {
                queue.prod_wake = true;
                Blocking::Done(Some(msg))
            },
            Blocking::Done(Err(_)) => Blocking::Done(None),
            Blocking::Wait(on) => Blocking::Wait(on),
        }
    }

    /// Adds a stream that stands where this one does, and hands out a receiver for it.
    pub fn add_stream(&self, queue: &mut FuturesQueue<D, T>) -> (res: FuturesReceiver<D, T>)
        requires
            old(queue).wf(),
            D::shares(),
            self.receiver().belongs(old(queue)@.queue),
        ensures
            final(queue).wf(),
            !old(queue)@.queue.is_live(res.receiver().pos()),
            !old(queue)@.queue.cursor.left.contains(res.receiver().pos()),
            !old(queue)@.queue.manager.has(res.receiver().token()),
            final(queue)@ == old(queue)@.with_queue(
                old(queue)@.queue.with_stream(self.receiver().pos(), res.receiver().pos()).with_token(
                    res.receiver().token(),
                ),
            ),
            res.receiver().belongs(final(queue)@.queue),
    {
        FuturesReceiver { reader: self.reader.add_stream(&mut queue.queue) }
    }

    /// Makes the receiver one that looks at values in their place with `op`, if it is the only
    /// consumer of its stream. Another receiver takes its place in any case.
    pub fn into_single<R, F: FnMut(&T) -> R>(self, queue: &mut FuturesQueue<D, T>, op: F) -> (res: Result<
        FuturesSingleReceiver<D, R, F, T>,
        (F, FuturesReceiver<D, T>),
    >)
        requires
            old(queue).wf(),
            self.receiver().belongs(old(queue)@.queue),
            old(queue)@.queue.cursor.streams[self.receiver().pos()].consumers > 0,
        ensures
            final(queue).wf(),
            ({
                let pos = self.receiver().pos();
                &&& res is Ok <==> old(queue)@.queue.cursor.streams[pos].consumers == 1
                &&& res matches Ok(receiver) ==> {
                    let next = old(queue)@.queue.replaced(pos, self.receiver().token(), receiver.receiver().token());
                    &&& receiver.op() == op
                    &&& receiver.receiver().pos() == pos
                    &&& receiver.receiver().belongs(final(queue)@.queue)
                    &&& !old(queue)@.queue.manager.has(receiver.receiver().token())
                    &&& final(queue)@ == old(queue)@.with_queue(next.single(pos)).with_room()
                }
                &&& res matches Err((given, receiver)) ==> {
                    let next = old(queue)@.queue.replaced(pos, self.receiver().token(), receiver.receiver().token());
                    &&& given == op
                    &&& receiver.receiver().pos() == pos
                    &&& receiver.receiver().belongs(final(queue)@.queue)
                    &&& !old(queue)@.queue.manager.has(receiver.receiver().token())
                    &&& final(queue)@ == old(queue)@.with_queue(next).with_room()
                }
            }),
    {
        let new_reader = self.reader.clone(&mut queue.queue);
        self.unsubscribe(queue);
        match new_reader.into_single(&mut queue.queue) {
            Ok(reader) => Ok(FuturesSingleReceiver { reader, op }),
            Err(reader) => Err((op, FuturesReceiver { reader })),
        }
    }

    /// Takes the receiver off the queue, and has the sending tasks called. Says whether it was the
    /// last consumer of its stream; if so, the stream is gone too.
    pub fn unsubscribe(self, queue: &mut FuturesQueue<D, T>) -> (res: bool)
        requires
            old(queue).wf(),
            self.receiver().belongs(old(queue)@.queue),
        ensures
            final(queue).wf(),
            res == (old(queue)@.queue.cursor.streams[self.receiver().pos()].consumers == 1),
            final(queue)@ == old(queue)@.with_queue(
                old(queue)@.queue.left_by(self.receiver().pos(), self.receiver().token()),
            ).with_room(),
    {
        queue.prod_wake = true;
        self.reader.unsubscribe(&mut queue.queue)
    }

    /// One more consumer of the stream.
    pub fn clone(&self, queue: &mut FuturesQueue<D, T>) -> (res: FuturesReceiver<D, T>)
        requires
            old(queue).wf(),
            self.receiver().belongs(old(queue)@.queue),
        ensures
            final(queue).wf(),
            res.receiver().pos() == self.receiver().pos(),
            !old(queue)@.queue.manager.has(res.receiver().token()),
            final(queue)@ == old(queue)@.with_queue(
                old(queue)@.queue.with_consumer(self.receiver().pos()).with_token(res.receiver().token()),
            ),
            res.receiver().belongs(final(queue)@.queue),
    {
        FuturesReceiver { reader: self.reader.clone(&mut queue.queue) }
    }
}

/// `res` and `after` are what comes of asking for a value: when there is one, the sending tasks
/// are called, since there may be room now.
pub open spec fn polled<T, R>(before: FuturesView<T>, res: Blocking<Option<R>>, after: FuturesView<T>) -> bool {
    after == (FuturesView {
        queue: after.queue,
        prod_wake: before.prod_wake || res matches Blocking::Done(Some(_)),
        ..before
    })
}

/// A receiver that is the only consumer of its stream, and looks at values in their place with a
/// function of its own.
#[verifier::reject_recursive_types(D)]
#[verifier::reject_recursive_types(R)]
#[verifier::reject_recursive_types(F)]
#[verifier::reject_recursive_types(T)]
pub struct FuturesSingleReceiver<D: DoDrop<T>, R, F: FnMut(&T) -> R, T> {
    reader: SingleReceiver<D, T>,
    op: F,
}

impl<D: DoDrop<T>, R, F: FnMut(&T) -> R, T> FuturesSingleReceiver<D, R, F, T> {
    /// The receiver.
    pub closed spec fn receiver(&self) -> SingleReceiver<D, T> {
        self.reader
    }

    /// The function.
    pub closed spec fn op(&self) -> F {
        self.op
    }

    /// The receiver is one of the queue, and its function can look at the next value.
    pub open spec fn can_view(&self, queue: QueueView<T>) -> bool {
        &&& self.receiver().belongs(queue)
        &&& queue.can_view(self.receiver().pos(), self.op())
    }

    /// What the function makes of the next value, if it is there. Has the sending tasks called.
    pub fn try_recv(&mut self, queue: &mut FuturesQueue<D, T>) -> (res: Result<R, TryRecvError>)
        requires
            old(queue).wf(),
            old(self).can_view(old(queue)@.queue),
        ensures
            final(queue).wf(),
            final(self).receiver() == old(self).receiver(),
            final(self).op() == old(self).op(),
            final(queue)@ == old(queue)@.with_queue(final(queue)@.queue).with_room(),
            ({
                let receiver = old(self).receiver();
                let seen = old(queue)@.queue.attended(receiver.token());
                if seen.is_readable(receiver.pos()) {
                    res matches Ok(val) && seen.views(receiver.pos(), old(self).op(), val, final(queue)@.queue)
                } else {
                    &&& res == Err::<R, TryRecvError>(seen.why_empty(receiver.pos()).1)
                    &&& final(queue)@.queue == seen
                }
            }),
    {
        let rval = self.reader.try_recv_with(&mut queue.queue, &mut self.op);
        queue.prod_wake = true;
        rval
    }

    /// What the function makes of the next value, or an error if there are no senders. If the
    /// value is not there yet, says what to wait for before `recv_again`. Has the sending tasks
    /// called when it is done.
    pub fn recv(&mut self, queue: &mut FuturesQueue<D, T>) -> (res: Blocking<Result<R, RecvError>>)
        requires
            old(queue).wf(),
            old(self).can_view(old(queue)@.queue),
        ensures
            final(queue).wf(),
            final(self).receiver() == old(self).receiver(),
            final(self).op() == old(self).op(),
            received_view(
                old(queue)@,
                old(queue)@.queue.attended(old(self).receiver().token()),
                old(self).receiver().pos(),
                old(self).op(),
                res,
                final(queue)@,
            ),
    {
        match self.reader.recv_with(&mut queue.queue, &mut self.op) {
            Blocking::Done(Some(val)) => {
                queue.prod_wake = true;
                Blocking::Done(Ok(val))
            },
            Blocking::Done(None) => {
                queue.prod_wake = true;
                Blocking::Done(Err(RecvError))
            },
            Blocking::Wait(on) => Blocking::Wait(on),
        }
    }

    /// Goes on with `recv` after a wait.
    pub fn recv_again(&mut self, queue: &mut FuturesQueue<D, T>) -> (res: Blocking<Result<R, RecvError>>)
        requires
            old(queue).wf(),
            old(self).can_view(old(queue)@.queue),
        ensures
            final(queue).wf(),
            final(self).receiver() == old(self).receiver(),
            final(self).op() == old(self).op(),
            received_view(
                old(queue)@,
                old(queue)@.queue,
                old(self).receiver().pos(),
                old(self).op(),
                res,
                final(queue)@,
            ),
    {
        match self.reader.recv_with_again(&mut queue.queue, &mut self.op) {
            Blocking::Done(Some(val)) => {
                queue.prod_wake = true;
                Blocking::Done(Ok(val))
            },
            Blocking::Done(None) => {
                queue.prod_wake = true;
                Blocking::Done(Err(RecvError))
            },
            Blocking::Wait(on) => Blocking::Wait(on),
        }
    }

    /// What the function makes of the next value, or nothing if there are no senders. If the value
    /// is not there yet, says what to wait for before `poll_again`.
    pub fn poll(&mut self, queue: &mut FuturesQueue<D, T>) -> (res: Blocking<Option<R>>)
        requires
            old(queue).wf(),
            old(self).can_view(old(queue)@.queue),
        ensures
            final(queue).wf(),
            final(self).receiver() == old(self).receiver(),
            final(self).op() == old(self).op(),
            polled(old(queue)@, res, final(queue)@),
            crate::iterators::yields_view(
                old(queue)@.queue.attended(old(self).receiver().token()),
                old(self).receiver().pos(),
                old(self).op(),
                res,
                final(queue)@.queue,
            ),
    {
        let res = self.reader.recv_with(&mut queue.queue, &mut self.op);
        if let Blocking::Done(Some(_)) = &res {
            queue.prod_wake = true;
        }
        res
    }

    /// Goes on with `poll` after a wait.
    pub fn poll_again(&mut self, queue: &mut FuturesQueue<D, T>) -> (res: Blocking<Option<R>>)
        requires
            old(queue).wf(),
            old(self).can_view(old(queue)@.queue),
        ensures
            final(queue).wf(),
            final(self).receiver() == old(self).receiver(),
            final(self).op() == old(self).op(),
            polled(old(queue)@, res, final(queue)@),
            crate::iterators::yields_view(
                old(queue)@.queue,
                old(self).receiver().pos(),
                old(self).op(),
                res,
                final(queue)@.queue,
            ),
    {
        let res = self.reader.recv_with_again(&mut queue.queue, &mut self.op);
        if let Blocking::Done(Some(_)) = &res {
            queue.prod_wake = true;
        }
        res
    }

    /// Adds a stream that stands where this one does, and hands out its only receiver, which looks
    /// at values with `op`.
    pub fn add_stream_with<Q, FQ: FnMut(&T) -> Q>(&self, queue: &mut FuturesQueue<D, T>, op: FQ) -> (res:
        FuturesSingleReceiver<D, Q, FQ, T>)
        requires
            old(queue).wf(),
            D::shares(),
            self.receiver().belongs(old(queue)@.queue),
        ensures
            final(queue).wf(),
            res.op() == op,
            !old(queue)@.queue.is_live(res.receiver().pos()),
            !old(queue)@.queue.cursor.left.contains(res.receiver().pos()),
            !old(queue)@.queue.manager.has(res.receiver().token()),
            final(queue)@ == old(queue)@.with_queue(
                old(queue)@.queue.with_stream(self.receiver().pos(), res.receiver().pos()).with_token(
                    res.receiver().token(),
                ),
            ),
            res.receiver().belongs(final(queue)@.queue),
            self.receiver().belongs(final(queue)@.queue),
    {
        FuturesSingleReceiver { reader: self.reader.add_stream(&mut queue.queue), op }
    }

    /// The receiver, with another function on the same stream.
    pub fn transform_operation<Q, FQ: FnMut(&T) -> Q>(self, op: FQ) -> (res: FuturesSingleReceiver<
        D,
        Q,
        FQ,
        T,
    >)
        ensures
            res.receiver() == self.receiver(),
            res.op() == op,
    {
        FuturesSingleReceiver { reader: self.reader, op }
    }

    /// Takes the receiver off the queue, and its stream with it, and has the sending tasks called.
    pub fn unsubscribe(self, queue: &mut FuturesQueue<D, T>) -> (res: bool)
        requires
            old(queue).wf(),
            self.receiver().belongs(old(queue)@.queue),
        ensures
            final(queue).wf(),
            res,
            final(queue)@ == old(queue)@.with_queue(
                old(queue)@.queue.left_by(self.receiver().pos(), self.receiver().token()),
            ).with_room(),
    {
        queue.prod_wake = true;
        self.reader.unsubscribe(&mut queue.queue)
    }
}

/// `res` and `after` are what comes of receiving what `op` makes of the next value of the stream
/// at `pos`, from what the receiver has `seen` of the queue.
pub open spec fn received_view<T, R, F: FnMut(&T) -> R>(
    before: FuturesView<T>,
    seen: QueueView<T>,
    pos: usize,
    op: F,
    res: Blocking<Result<R, RecvError>>,
    after: FuturesView<T>,
) -> bool {
    &&& after == (FuturesView {
        queue: after.queue,
        prod_wake: before.prod_wake || res is Done,
        ..before
    })
    &&& if seen.is_readable(pos) {
        res matches Blocking::Done(Ok(val)) && seen.views(pos, op, val, after.queue)
    } else {
        &&& res == if seen.writers == 0 {
            Blocking::Done(Err::<R, RecvError>(RecvError))
        } else {
            Blocking::Wait(seen.awaited(pos))
        }
        &&& after.queue == seen
    }
}

/// A receiving task that is parked is among those to be called as soon as something is sent or a
/// sender leaves.
pub proof fn lemma_parked_receiver_called<T>(
    before: FuturesView<T>,
    task: u64,
    token: usize,
    val: T,
    res: Result<(), TrySendError<T>>,
    after: QueueView<T>,
)
    requires
        before.queue.needs_notify,
        before.wait.parked.contains(task),
        before.queue.sends(token, val, res, after),
    ensures
        res is Ok ==> before.with_queue(after).receivers_to_call().contains(task),
        before.with_queue(before.queue.without_writer(token)).receivers_to_call().contains(task),
{
}

/// A sending task that is parked is among those to be called as soon as a receiving task gets a
/// value from its stream, or a receiver leaves.
pub proof fn lemma_parked_sender_called<T, R>(
    before: FuturesView<T>,
    task: u64,
    res: Blocking<Option<R>>,
    after: FuturesView<T>,
    queue: QueueView<T>,
)
    requires
        before.prod_wait.parked.contains(task),
        polled(before, res, after),
    ensures
        res matches Blocking::Done(Some(_)) ==> after.senders_to_call().contains(task),
        before.with_queue(queue).with_room().senders_to_call().contains(task),
{
}

/// A task is called once: when the tasks that are to be called were handed out, none is left.
pub proof fn lemma_called_once<T>(queue: FuturesView<T>)
    ensures
        queue.receivers_called().receivers_to_call().len() == 0,
        queue.senders_called().senders_to_call().len() == 0,
        queue.queue.wake ==> queue.receivers_called().wait.parked.len() == 0,
        queue.prod_wake ==> queue.senders_called().prod_wait.parked.len() == 0,
{
}

/// When tasks are called, all that are parked are, in order, and none stays behind; when none is to
/// be called, all stay.
pub proof fn lemma_all_called<T>(before: FuturesView<T>)
    ensures
        ({
            let called = before.receivers_to_call();
            let after = before.receivers_called();
            &&& before.queue.wake ==> called == before.wait.parked && after.wait.parked.len() == 0
            &&& !before.queue.wake ==> called.len() == 0 && after.wait.parked == before.wait.parked
            &&& !after.queue.wake
            &&& after.wait.first == before.wait.first && after.wait.yields == before.wait.yields
            &&& after.prod_wait == before.prod_wait && after.prod_wake == before.prod_wake
            &&& after.queue == (QueueView { wake: false, ..before.queue })
        }),
        ({
            let called = before.senders_to_call();
            let after = before.senders_called();
            &&& before.prod_wake ==> called == before.prod_wait.parked && after.prod_wait.parked.len() == 0
            &&& !before.prod_wake ==> called.len() == 0 && after.prod_wait.parked == before.prod_wait.parked
            &&& !after.prod_wake
            &&& after.prod_wait.first == before.prod_wait.first && after.prod_wait.yields == before.prod_wait.yields
            &&& after.wait == before.wait && after.queue == before.queue
        }),
{
}

/// A task that gets a value has the sending tasks called, and one that gets none does not; neither
/// parks nor calls anybody else. What leaves has them called, and what only changes the queue calls
/// nobody.
pub proof fn lemma_who_has_senders_called<T, R>(
    before: FuturesView<T>,
    res: Blocking<Option<R>>,
    after: FuturesView<T>,
    queue: QueueView<T>,
)
    requires
        polled(before, res, after),
    ensures
        after.prod_wake <==> before.prod_wake || res matches Blocking::Done(Some(_)),
        after.wait == before.wait,
        after.prod_wait == before.prod_wait,
        before.with_room().prod_wake,
        before.with_room().queue == before.queue,
        before.with_room().wait == before.wait,
        before.with_room().prod_wait == before.prod_wait,
        before.with_queue(queue).queue == queue,
        before.with_queue(queue).prod_wake == before.prod_wake,
        before.with_queue(queue).wait == before.wait,
        before.with_queue(queue).prod_wait == before.prod_wait,
{
}

/// A sending task is told that it is done exactly when its value was taken, and gets the value back
/// otherwise: to try again, parked or not, when there is no room, and for good when no stream is left.
pub proof fn lemma_send_steps<T>(step: SendStep<T>)
    ensures
        step.outcome() is Ok <==> step is Ready,
        step matches SendStep::NotReady(val) ==> step.outcome() == Err::<(), TrySendError<T>>(
            TrySendError::Full(val),
        ),
        step matches SendStep::Again(_, val) ==> step.outcome() == Err::<(), TrySendError<T>>(
            TrySendError::Full(val),
        ),
        step matches SendStep::Failed(err) ==> step.outcome() == Err::<(), TrySendError<T>>(
            TrySendError::Disconnected(err.0),
        ),
{
}

/// A new queue between tasks has nobody parked and nobody to call.
pub proof fn lemma_new_is_quiet<D: DoDrop<T>, T>(
    parts: (FuturesQueue<D, T>, FuturesSender<D, T>, FuturesReceiver<D, T>),
    capacity: Index,
)
    requires
        FuturesQueue::is_new(parts, capacity),
    ensures
        parts.0@.wait.parked.len() == 0,
        parts.0@.prod_wait.parked.len() == 0,
        parts.0@.wait.first == 1000 && parts.0@.wait.yields == 50,
        parts.0@.prod_wait.first == 1000 && parts.0@.prod_wait.yields == 50,
        !parts.0@.prod_wake,
        !parts.0@.queue.wake,
        parts.0@.queue.needs_notify,
        MultiQueue::is_new((parts.0.inner(), parts.1.sender(), parts.2.receiver()), capacity, true),
{
}

} // verus!
