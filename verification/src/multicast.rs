//! The queue as a broadcast: each stream receives clones of all values.
use vstd::prelude::*;

use crate::countedindex::{Index, MAX_WRAP};
use crate::errors::{RecvError, TryRecvError, TrySendError};
use crate::futures_queue::{futures_multiqueue, FuturesQueue};
use crate::futures_queue::{FuturesReceiver, FuturesSender, FuturesSingleReceiver, FuturesView};
use crate::futures_wait::SendStep;
use crate::multiqueue::{BCast, MultiQueue};
use crate::receiver::{Receiver, SingleReceiver};
use crate::sender::Sender;
use crate::wait::{Blocking, Stage, Wait};

verus! {

/// A queue that broadcasts clones of its values to any number of streams.
pub type MulticastQueue<T> = MultiQueue<BCast<T>, T>;

/// The same between tasks.
pub type MulticastFutQueue<T> = FuturesQueue<BCast<T>, T>;

/// The sending half of a multicast queue.
#[verifier::reject_recursive_types(T)]
pub struct MulticastSender<T: Clone> {
    sender: Sender<BCast<T>, T>,
}

/// The receiving half of a multicast queue: one of the consumers of a stream.
#[verifier::reject_recursive_types(T)]
pub struct MulticastReceiver<T: Clone> {
    reader: Receiver<BCast<T>, T>,
}

/// A receiver that is the only consumer of its stream, and so can look at values in their place.
#[verifier::reject_recursive_types(T)]
pub struct MulticastUniReceiver<T: Clone + Sync> {
    reader: SingleReceiver<BCast<T>, T>,
}

/// A sender whose task can wait for room.
#[verifier::reject_recursive_types(T)]
pub struct MulticastFutSender<T: Clone> {
    sender: FuturesSender<BCast<T>, T>,
}

/// A receiver whose task can wait for values.
#[verifier::reject_recursive_types(T)]
pub struct MulticastFutReceiver<T: Clone> {
    receiver: FuturesReceiver<BCast<T>, T>,
}

/// A receiver whose task can wait for values, and that looks at them in their place with a
/// function of its own.
#[verifier::reject_recursive_types(R)]
#[verifier::reject_recursive_types(F)]
#[verifier::reject_recursive_types(T)]
pub struct MulticastFutUniReceiver<R, F: FnMut(&T) -> R, T: Clone + Sync> {
    receiver: FuturesSingleReceiver<BCast<T>, R, F, T>,
}

impl<T: Clone> MulticastSender<T> {
    /// The sender.
    pub closed spec fn sender(&self) -> Sender<BCast<T>, T> {
        self.sender
    }

    /// Tries to send a value. If there is no room, hands the value back as `Full`, and if there is
    /// no stream, as `Disconnected`.
    pub fn try_send(&mut self, queue: &mut MulticastQueue<T>, val: T) -> (res: Result<(), TrySendError<T>>)
        requires
            old(queue).wf(),
            old(self).sender().belongs(old(queue)@),
        ensures
            final(queue).wf(),
            old(queue)@.sends(old(self).sender().token(), val, res, final(queue)@),
            final(self).sender().token() == old(self).sender().token(),
            final(self).sender().belongs(final(queue)@),
            final(self).sender().state() == old(self).sender().state().after_send(old(queue)@),
    {
        self.sender.try_send(queue, val)
    }

    /// Takes the sender off the queue.
    pub fn unsubscribe(self, queue: &mut MulticastQueue<T>)
        requires
            old(queue).wf(),
            self.sender().belongs(old(queue)@),
        ensures
            final(queue).wf(),
            final(queue)@ == old(queue)@.without_writer(self.sender().token()),
    {
        self.sender.unsubscribe(queue)
    }

    /// One more sender for the queue. From now on both know that they are not alone.
    pub fn clone(&mut self, queue: &mut MulticastQueue<T>) -> (res: MulticastSender<T>)
        requires
            old(queue).wf(),
        ensures
            final(queue).wf(),
            !old(queue)@.manager.has(res.sender().token()),
            final(queue)@ == old(queue)@.with_writer(res.sender().token()),
            res.sender().belongs(final(queue)@),
            res.sender().state() == crate::sender::QueueState::Multi,
            final(self).sender().token() == old(self).sender().token(),
            final(self).sender().state() == crate::sender::QueueState::Multi,
            old(self).sender().belongs(old(queue)@) ==> final(self).sender().belongs(final(queue)@),
    {
        MulticastSender { sender: self.sender.clone(queue) }
    }
}

impl<T: Clone> MulticastReceiver<T> {
    /// The receiver.
    pub closed spec fn receiver(&self) -> Receiver<BCast<T>, T> {
        self.reader
    }

    /// Tries to receive the next value, without waiting for it.
    pub fn try_recv(&self, queue: &mut MulticastQueue<T>) -> (res: Result<T, TryRecvError>)
        requires
            old(queue).wf(),
            self.receiver().belongs(old(queue)@),
        ensures
            final(queue).wf(),
            old(queue)@.attended(self.receiver().token()).receives::<BCast<T>>(
                self.receiver().pos(),
                res,
                final(queue)@,
            ),
            self.receiver().belongs(final(queue)@),
    {
        self.reader.try_recv(queue)
    }

    /// Receives the next value. If it is not there yet, says what to wait for before `recv_again`.
    pub fn recv(&self, queue: &mut MulticastQueue<T>) -> (res: Blocking<Result<T, RecvError>>)
        requires
            old(queue).wf(),
            self.receiver().belongs(old(queue)@),
        ensures
            final(queue).wf(),
            old(queue)@.attended(self.receiver().token()).awaits::<BCast<T>>(
                self.receiver().pos(),
                res,
                final(queue)@,
            ),
            self.receiver().belongs(final(queue)@),
    {
        self.reader.recv(queue)
    }

    /// Goes on with `recv` after a wait.
    pub fn recv_again(&self, queue: &mut MulticastQueue<T>) -> (res: Blocking<Result<T, RecvError>>)
        requires
            old(queue).wf(),
            self.receiver().belongs(old(queue)@),
        ensures
            final(queue).wf(),
            old(queue)@.awaits::<BCast<T>>(self.receiver().pos(), res, final(queue)@),
            self.receiver().belongs(final(queue)@),
    {
        self.reader.recv_again(queue)
    }

    /// Adds a stream that stands where this one does, and hands out a receiver for it.
    pub fn add_stream(&self, queue: &mut MulticastQueue<T>) -> (res: MulticastReceiver<T>)
        requires
            old(queue).wf(),
            self.receiver().belongs(old(queue)@),
        ensures
            final(queue).wf(),
            !old(queue)@.is_live(res.receiver().pos()),
            !old(queue)@.cursor.left.contains(res.receiver().pos()),
            !old(queue)@.manager.has(res.receiver().token()),
            final(queue)@ == old(queue)@.with_stream(self.receiver().pos(), res.receiver().pos()).with_token(
                res.receiver().token(),
            ),
            res.receiver().belongs(final(queue)@),
            self.receiver().belongs(final(queue)@),
    {
        MulticastReceiver { reader: self.reader.add_stream(queue) }
    }

    /// Takes the receiver off the queue. Says whether it was the last consumer of its stream; if
    /// so, the stream is gone too.
    pub fn unsubscribe(self, queue: &mut MulticastQueue<T>) -> (res: bool)
        requires
            old(queue).wf(),
            self.receiver().belongs(old(queue)@),
        ensures
            final(queue).wf(),
            res == (old(queue)@.cursor.streams[self.receiver().pos()].consumers == 1),
            final(queue)@ == old(queue)@.left_by(self.receiver().pos(), self.receiver().token()),
    {
        self.reader.unsubscribe(queue)
    }

    /// One more consumer of the stream.
    pub fn clone(&self, queue: &mut MulticastQueue<T>) -> (res: MulticastReceiver<T>)
        requires
            old(queue).wf(),
            self.receiver().belongs(old(queue)@),
        ensures
            final(queue).wf(),
            res.receiver().pos() == self.receiver().pos(),
            !old(queue)@.manager.has(res.receiver().token()),
            final(queue)@ == old(queue)@.with_consumer(self.receiver().pos()).with_token(
                res.receiver().token(),
            ),
            res.receiver().belongs(final(queue)@),
            self.receiver().belongs(final(queue)@),
    {
        MulticastReceiver { reader: self.reader.clone(queue) }
    }

    /// All values that the receiver gets until there are no senders.
    pub fn into_iter(self) -> (res: MulticastIter<T>)
        ensures
            res.receiver() == self.receiver(),
    {
        MulticastIter { recv: self }
    }

    /// The values that the receiver gets until one is not there.
    pub fn partial_iter(&self) -> (res: MulticastRefIter<T>)
        ensures
            res.receiver() == self.receiver(),
    {
        MulticastRefIter { recv: self }
    }
}

impl<T: Clone + Sync> MulticastReceiver<T> {
    /// Makes the receiver one that can look at values in their place, if it is the only consumer
    /// of its stream.
    pub fn into_single(self, queue: &mut MulticastQueue<T>) -> (res: Result<
        MulticastUniReceiver<T>,
        MulticastReceiver<T>,
    >)
        requires
            old(queue).wf(),
            self.receiver().belongs(old(queue)@),
        ensures
            final(queue).wf(),
            old(queue)@.cursor.streams[self.receiver().pos()].consumers == 1 ==> {
                &&& res matches Ok(single) && single.receiver().receiver() == self.receiver()
                    && single.receiver().belongs(final(queue)@)
                &&& final(queue)@ == old(queue)@.single(self.receiver().pos())
            },
            old(queue)@.cursor.streams[self.receiver().pos()].consumers != 1 ==> {
                &&& res matches Err(receiver) && receiver.receiver() == self.receiver()
                &&& final(queue)@ == old(queue)@
            },
    {
        match self.reader.into_single(queue) {
            Ok(reader) => Ok(MulticastUniReceiver { reader }),
            Err(reader) => Err(MulticastReceiver { reader }),
        }
    }
}

impl<T: Clone + Sync> MulticastUniReceiver<T> {
    /// The receiver.
    pub closed spec fn receiver(&self) -> SingleReceiver<BCast<T>, T> {
        self.reader
    }

    /// Tries to receive the next value, without waiting for it.
    pub fn try_recv(&self, queue: &mut MulticastQueue<T>) -> (res: Result<T, TryRecvError>)
        requires
            old(queue).wf(),
            self.receiver().belongs(old(queue)@),
        ensures
            final(queue).wf(),
            old(queue)@.attended(self.receiver().token()).receives::<BCast<T>>(
                self.receiver().pos(),
                res,
                final(queue)@,
            ),
            self.receiver().belongs(final(queue)@),
    {
        self.reader.try_recv(queue)
    }

    /// Receives the next value. If it is not there yet, says what to wait for before `recv_again`.
    pub fn recv(&self, queue: &mut MulticastQueue<T>) -> (res: Blocking<Result<T, RecvError>>)
        requires
            old(queue).wf(),
            self.receiver().belongs(old(queue)@),
        ensures
            final(queue).wf(),
            old(queue)@.attended(self.receiver().token()).awaits::<BCast<T>>(
                self.receiver().pos(),
                res,
                final(queue)@,
            ),
            self.receiver().belongs(final(queue)@),
    {
        self.reader.recv(queue)
    }

    /// Goes on with `recv` after a wait.
    pub fn recv_again(&self, queue: &mut MulticastQueue<T>) -> (res: Blocking<Result<T, RecvError>>)
        requires
            old(queue).wf(),
            self.receiver().belongs(old(queue)@),
        ensures
            final(queue).wf(),
            old(queue)@.awaits::<BCast<T>>(self.receiver().pos(), res, final(queue)@),
            self.receiver().belongs(final(queue)@),
    {
        self.reader.recv_again(queue)
    }

    /// Applies a function to the next value, in its place. If there is none, hands the function
    /// back.
    pub fn try_recv_view<R, F: FnOnce(&T) -> R>(&self, queue: &mut MulticastQueue<T>, op: F) -> (res: Result<
        R,
        (F, TryRecvError),
    >)
        requires
            old(queue).wf(),
            self.receiver().belongs(old(queue)@),
            old(queue)@.can_view(self.receiver().pos(), op),
        ensures
            final(queue).wf(),
            old(queue)@.attended(self.receiver().token()).tries_view(
                self.receiver().pos(),
                op,
                res,
                final(queue)@,
            ),
            self.receiver().belongs(final(queue)@),
    {
        self.reader.try_recv_view(queue, op)
    }

    /// Applies a function to the next value, in its place. If the value is not there yet, hands
    /// the function back, and says what to wait for before `recv_view_again`.
    pub fn recv_view<R, F: FnOnce(&T) -> R>(&self, queue: &mut MulticastQueue<T>, op: F) -> (res: Result<
        R,
        (F, Blocking<RecvError>),
    >)
        requires
            old(queue).wf(),
            self.receiver().belongs(old(queue)@),
            old(queue)@.can_view(self.receiver().pos(), op),
        ensures
            final(queue).wf(),
            old(queue)@.attended(self.receiver().token()).awaits_view(
                self.receiver().pos(),
                op,
                res,
                final(queue)@,
            ),
            self.receiver().belongs(final(queue)@),
    {
        self.reader.recv_view(queue, op)
    }

    /// Goes on with `recv_view` after a wait.
    pub fn recv_view_again<R, F: FnOnce(&T) -> R>(&self, queue: &mut MulticastQueue<T>, op: F) -> (res: Result<
        R,
        (F, Blocking<RecvError>),
    >)
        requires
            old(queue).wf(),
            self.receiver().belongs(old(queue)@),
            old(queue)@.can_view(self.receiver().pos(), op),
        ensures
            final(queue).wf(),
            old(queue)@.awaits_view(self.receiver().pos(), op, res, final(queue)@),
            self.receiver().belongs(final(queue)@),
    {
        self.reader.recv_view_again(queue, op)
    }

    /// Takes the receiver off the queue, and its stream with it: it is the last consumer.
    pub fn unsubscribe(self, queue: &mut MulticastQueue<T>)
        requires
            old(queue).wf(),
            self.receiver().belongs(old(queue)@),
        ensures
            final(queue).wf(),
            final(queue)@ == old(queue)@.left_by(self.receiver().pos(), self.receiver().token()),
    {
        self.reader.unsubscribe(queue);
    }

    /// What `op` makes of all values that the receiver gets until there are no senders.
    pub fn iter_with<R, F: FnMut(&T) -> R>(self, op: F) -> (res: MulticastUniIter<R, F, T>)
        ensures
            res.receiver() == self.receiver(),
            res.op() == op,
    {
        MulticastUniIter { recv: self, op }
    }

    /// What `op` makes of the values that the receiver gets until one is not there.
    pub fn partial_iter_with<'a, R, F: FnMut(&T) -> R>(&'a self, op: F) -> (res: MulticastUniRefIter<'a, R, F, T>)
        ensures
            res.receiver() == self.receiver(),
            res.op() == op,
    {
        MulticastUniRefIter { recv: self, op }
    }
}

/// A queue for at least `capacity` values, the next power of two, with one sender and one receiver.
pub fn multicast_queue<T: Clone>(capacity: Index) -> (res: (
    MulticastQueue<T>,
    MulticastSender<T>,
    MulticastReceiver<T>,
))
    requires
        capacity <= MAX_WRAP / 2 + 1,
    ensures
        MulticastQueue::<T>::is_new((res.0, res.1.sender(), res.2.receiver()), capacity, true),
{
    let (queue, send, recv) = MultiQueue::new(capacity);
    (queue, MulticastSender { sender: send }, MulticastReceiver { reader: recv })
}

/// The same, with receivers that wait as `wait` says.
pub fn multicast_queue_with<T: Clone, W: Wait>(capacity: Index, wait: &W) -> (res: (
    MulticastQueue<T>,
    MulticastSender<T>,
    MulticastReceiver<T>,
))
    requires
        capacity <= MAX_WRAP / 2 + 1,
    ensures
        MulticastQueue::<T>::is_new((res.0, res.1.sender(), res.2.receiver()), capacity, wait.sleeps()),
{
    let (queue, send, recv) = MultiQueue::new_with(capacity, wait);
    (queue, MulticastSender { sender: send }, MulticastReceiver { reader: recv })
}

/// A queue for at least `capacity` values between tasks, with one sender and one receiver.
pub fn multicast_fut_queue<T: Clone>(capacity: Index) -> (res: (
    MulticastFutQueue<T>,
    MulticastFutSender<T>,
    MulticastFutReceiver<T>,
))
    requires
        capacity <= MAX_WRAP / 2 + 1,
    ensures
        MulticastFutQueue::<T>::is_new((res.0, res.1.sender(), res.2.receiver()), capacity),
{
    let (queue, isend, irecv) = futures_multiqueue(capacity);
    (queue, MulticastFutSender { sender: isend }, MulticastFutReceiver { receiver: irecv })
}

/// All values that a receiver gets until there are no senders.
#[verifier::reject_recursive_types(T)]
pub struct MulticastIter<T: Clone> {
    recv: MulticastReceiver<T>,
}

impl<T: Clone> MulticastIter<T> {
    /// The receiver.
    pub closed spec fn receiver(&self) -> Receiver<BCast<T>, T> {
        self.recv.reader
    }

    /// The next value, or nothing if there are no senders. If the value is not there yet, says
    /// what to wait for before `next_again`.
    pub fn next(&mut self, queue: &mut MulticastQueue<T>) -> (res: Blocking<Option<T>>)
        requires
            old(queue).wf(),
            old(self).receiver().belongs(old(queue)@),
        ensures
            final(queue).wf(),
            final(self).receiver() == old(self).receiver(),
            ({
                let receiver = old(self).receiver();
                crate::iterators::yields::<BCast<T>, T>(
                    old(queue)@.attended(receiver.token()),
                    receiver.pos(),
                    res,
                    final(queue)@,
                )
            }),
    {
        match self.recv.recv(queue) {
            Blocking::Done(Ok(val)) => Blocking::Done(Some(val)),
            Blocking::Done(Err(_)) => Blocking::Done(None),
            Blocking::Wait(on) => Blocking::Wait(on),
        }
    }

    /// Goes on with `next` after a wait.
    pub fn next_again(&mut self, queue: &mut MulticastQueue<T>) -> (res: Blocking<Option<T>>)
        requires
            old(queue).wf(),
            old(self).receiver().belongs(old(queue)@),
        ensures
            final(queue).wf(),
            final(self).receiver() == old(self).receiver(),
            crate::iterators::yields::<BCast<T>, T>(
                old(queue)@,
                old(self).receiver().pos(),
                res,
                final(queue)@,
            ),
    {
        match self.recv.recv_again(queue) {
            Blocking::Done(Ok(val)) => Blocking::Done(Some(val)),
            Blocking::Done(Err(_)) => Blocking::Done(None),
            Blocking::Wait(on) => Blocking::Wait(on),
        }
    }
}

/// The values that a receiver gets until one is not there.
#[verifier::reject_recursive_types(T)]
pub struct MulticastRefIter<'a, T: Clone + 'a> {
    recv: &'a MulticastReceiver<T>,
}

impl<'a, T: Clone + 'a> MulticastRefIter<'a, T> {
    /// The receiver.
    pub closed spec fn receiver(&self) -> Receiver<BCast<T>, T> {
        self.recv.reader
    }

    /// The next value, or nothing if it is not there.
    pub fn next(&mut self, queue: &mut MulticastQueue<T>) -> (res: Option<T>)
        requires
            old(queue).wf(),
            old(self).receiver().belongs(old(queue)@),
        ensures
            final(queue).wf(),
            final(self).receiver() == old(self).receiver(),
            ({
                let receiver = old(self).receiver();
                crate::iterators::yields_now::<BCast<T>, T>(
                    old(queue)@.attended(receiver.token()),
                    receiver.pos(),
                    res,
                    final(queue)@,
                )
            }),
    {
        match self.recv.try_recv(queue) {
            Ok(val) => Some(val),
            Err(_) => None,
        }
    }
}

/// What a function makes of all values that a receiver gets until there are no senders.
#[verifier::reject_recursive_types(R)]
#[verifier::reject_recursive_types(F)]
#[verifier::reject_recursive_types(T)]
pub struct MulticastUniIter<R, F: FnMut(&T) -> R, T: Clone + Sync> {
    recv: MulticastUniReceiver<T>,
    op: F,
}

impl<R, F: FnMut(&T) -> R, T: Clone + Sync> MulticastUniIter<R, F, T> {
    /// The receiver.
    pub closed spec fn receiver(&self) -> SingleReceiver<BCast<T>, T> {
        self.recv.reader
    }

    /// The function.
    pub closed spec fn op(&self) -> F {
        self.op
    }

    /// What the function makes of the next value, or nothing if there are no senders. If the
    /// value is not there yet, says what to wait for before `next_again`.
    pub fn next(&mut self, queue: &mut MulticastQueue<T>) -> (res: Blocking<Option<R>>)
        requires
            old(queue).wf(),
            old(self).receiver().belongs(old(queue)@),
            old(queue)@.can_view(old(self).receiver().pos(), old(self).op()),
        ensures
            final(queue).wf(),
            final(self).receiver() == old(self).receiver(),
            final(self).op() == old(self).op(),
            crate::iterators::yields_view(
                old(queue)@.attended(old(self).receiver().token()),
                old(self).receiver().pos(),
                old(self).op(),
                res,
                final(queue)@,
            ),
    {
        self.recv.reader.recv_with(queue, &mut self.op)
    }

    /// Goes on with `next` after a wait.
    pub fn next_again(&mut self, queue: &mut MulticastQueue<T>) -> (res: Blocking<Option<R>>)
        requires
            old(queue).wf(),
            old(self).receiver().belongs(old(queue)@),
            old(queue)@.can_view(old(self).receiver().pos(), old(self).op()),
        ensures
            final(queue).wf(),
            final(self).receiver() == old(self).receiver(),
            final(self).op() == old(self).op(),
            crate::iterators::yields_view(
                old(queue)@,
                old(self).receiver().pos(),
                old(self).op(),
                res,
                final(queue)@,
            ),
    {
        self.recv.reader.recv_with_again(queue, &mut self.op)
    }
}

/// What a function makes of the values that a receiver gets until one is not there.
#[verifier::reject_recursive_types(R)]
#[verifier::reject_recursive_types(F)]
#[verifier::reject_recursive_types(T)]
pub struct MulticastUniRefIter<'a, R, F: FnMut(&T) -> R, T: Clone + Sync + 'a> {
    recv: &'a MulticastUniReceiver<T>,
    op: F,
}

impl<'a, R, F: FnMut(&T) -> R, T: Clone + Sync + 'a> MulticastUniRefIter<'a, R, F, T> {
    /// The receiver.
    pub closed spec fn receiver(&self) -> SingleReceiver<BCast<T>, T> {
        self.recv.reader
    }

    /// The function.
    pub closed spec fn op(&self) -> F {
        self.op
    }

    /// What the function makes of the next value, or nothing if it is not there.
    pub fn next(&mut self, queue: &mut MulticastQueue<T>) -> (res: Option<R>)
        requires
            old(queue).wf(),
            old(self).receiver().belongs(old(queue)@),
            old(queue)@.can_view(old(self).receiver().pos(), old(self).op()),
        ensures
            final(queue).wf(),
            final(self).receiver() == old(self).receiver(),
            final(self).op() == old(self).op(),
            crate::iterators::yields_view_now(
                old(queue)@.attended(old(self).receiver().token()),
                old(self).receiver().pos(),
                old(self).op(),
                res,
                final(queue)@,
            ),
    {
        match self.recv.reader.try_recv_with(queue, &mut self.op) {
            Ok(val) => Some(val),
            Err(_) => None,
        }
    }
}

impl<T: Clone> MulticastFutSender<T> {
    /// The sender.
    pub closed spec fn sender(&self) -> FuturesSender<BCast<T>, T> {
        self.sender
    }

    /// Tries to send a value. If there is no room, or no stream, hands the value back.
    pub fn try_send(&mut self, queue: &mut MulticastFutQueue<T>, val: T) -> (res: Result<(), TrySendError<T>>)
        requires
            old(queue).wf(),
            old(self).sender().sender().belongs(old(queue)@.queue),
        ensures
            final(queue).wf(),
            final(queue)@ == old(queue)@.with_queue(final(queue)@.queue),
            old(queue)@.queue.sends(old(self).sender().sender().token(), val, res, final(queue)@.queue),
            final(self).sender().sender().token() == old(self).sender().sender().token(),
            final(self).sender().sender().state() == old(self).sender().sender().state().after_send(
                old(queue)@.queue,
            ),
    {
        self.sender.try_send(queue, val)
    }

    /// Tries to send a value, after what `stage` asks for. If there is no room, says what to do
    /// before the next try, and after the last one parks the task.
    pub fn start_send(
        &mut self,
        queue: &mut MulticastFutQueue<T>,
        stage: Stage,
        msg: T,
        task: u64,
    ) -> (res: SendStep<T>)
        requires
            old(queue).wf(),
            old(self).sender().sender().belongs(old(queue)@.queue),
            exists|n: nat| stage == #[trigger] old(queue)@.prod_wait.stage(n),
        ensures
            final(queue).wf(),
            old(queue)@.queue.sends(
                old(self).sender().sender().token(),
                msg,
                res.outcome(),
                final(queue)@.queue,
            ),
            res is NotReady ==> stage == Stage::Lock,
            res is Again ==> stage != Stage::Lock && forall|n: nat| stage
                == #[trigger] old(queue)@.prod_wait.stage(n) ==> res->Again_0 == old(queue)@.prod_wait.stage(n + 1),
            final(queue)@ == (FuturesView {
                queue: final(queue)@.queue,
                prod_wait: if res is NotReady {
                    old(queue)@.prod_wait.with_task(task)
                } else {
                    old(queue)@.prod_wait
                },
                ..old(queue)@
            }),
            final(self).sender().sender().token() == old(self).sender().sender().token(),
            final(self).sender().sender().state() == old(self).sender().sender().state().after_send(
                old(queue)@.queue,
            ),
    {
        self.sender.start_send(queue, stage, msg, task)
    }

    /// Takes the sender off the queue.
    pub fn unsubscribe(self, queue: &mut MulticastFutQueue<T>)
        requires
            old(queue).wf(),
            self.sender().sender().belongs(old(queue)@.queue),
        ensures
            final(queue).wf(),
            final(queue)@ == old(queue)@.with_queue(
                old(queue)@.queue.without_writer(self.sender().sender().token()),
            ),
    {
        self.sender.unsubscribe(queue)
    }

    /// One more sender for the queue.
    pub fn clone(&mut self, queue: &mut MulticastFutQueue<T>) -> (res: MulticastFutSender<T>)
        requires
            old(queue).wf(),
        ensures
            final(queue).wf(),
            !old(queue)@.queue.manager.has(res.sender().sender().token()),
            final(queue)@ == old(queue)@.with_queue(
                old(queue)@.queue.with_writer(res.sender().sender().token()),
            ),
            res.sender().sender().belongs(final(queue)@.queue),
            res.sender().sender().state() == crate::sender::QueueState::Multi,
            final(self).sender().sender().token() == old(self).sender().sender().token(),
            final(self).sender().sender().state() == crate::sender::QueueState::Multi,
    {
        MulticastFutSender { sender: self.sender.clone(queue) }
    }
}

impl<T: Clone> MulticastFutReceiver<T> {
    /// The receiver.
    pub closed spec fn receiver(&self) -> FuturesReceiver<BCast<T>, T> {
        self.receiver
    }

    /// Tries to receive the next value, without waiting for it.
    pub fn try_recv(&self, queue: &mut MulticastFutQueue<T>) -> (res: Result<T, TryRecvError>)
        requires
            old(queue).wf(),
            self.receiver().receiver().belongs(old(queue)@.queue),
        ensures
            final(queue).wf(),
            final(queue)@ == old(queue)@.with_queue(final(queue)@.queue),
            old(queue)@.queue.attended(self.receiver().receiver().token()).receives::<BCast<T>>(
                self.receiver().receiver().pos(),
                res,
                final(queue)@.queue,
            ),
            self.receiver().receiver().belongs(final(queue)@.queue),
    {
        self.receiver.try_recv(queue)
    }

    /// Receives the next value. If it is not there yet, says what to wait for before `recv_again`.
    pub fn recv(&self, queue: &mut MulticastFutQueue<T>) -> (res: Blocking<Result<T, RecvError>>)
        requires
            old(queue).wf(),
            self.receiver().receiver().belongs(old(queue)@.queue),
        ensures
            final(queue).wf(),
            final(queue)@ == old(queue)@.with_queue(final(queue)@.queue),
            old(queue)@.queue.attended(self.receiver().receiver().token()).awaits::<BCast<T>>(
                self.receiver().receiver().pos(),
                res,
                final(queue)@.queue,
            ),
            self.receiver().receiver().belongs(final(queue)@.queue),
    {
        self.receiver.recv(queue)
    }

    /// Goes on with `recv` after a wait.
    pub fn recv_again(&self, queue: &mut MulticastFutQueue<T>) -> (res: Blocking<Result<T, RecvError>>)
        requires
            old(queue).wf(),
            self.receiver().receiver().belongs(old(queue)@.queue),
        ensures
            final(queue).wf(),
            final(queue)@ == old(queue)@.with_queue(final(queue)@.queue),
            old(queue)@.queue.awaits::<BCast<T>>(self.receiver().receiver().pos(), res, final(queue)@.queue),
            self.receiver().receiver().belongs(final(queue)@.queue),
    {
        self.receiver.recv_again(queue)
    }

    /// The next value, or nothing if there are no senders. If the value is not there yet, says
    /// what to wait for before `poll_again`.
    pub fn poll(&self, queue: &mut MulticastFutQueue<T>) -> (res: Blocking<Option<T>>)
        requires
            old(queue).wf(),
            self.receiver().receiver().belongs(old(queue)@.queue),
        ensures
            final(queue).wf(),
            crate::futures_queue::polled(old(queue)@, res, final(queue)@),
            crate::iterators::yields::<BCast<T>, T>(
                old(queue)@.queue.attended(self.receiver().receiver().token()),
                self.receiver().receiver().pos(),
                res,
                final(queue)@.queue,
            ),
    {
        self.receiver.poll(queue)
    }

    /// Goes on with `poll` after a wait.
    pub fn poll_again(&self, queue: &mut MulticastFutQueue<T>) -> (res: Blocking<Option<T>>)
        requires
            old(queue).wf(),
            self.receiver().receiver().belongs(old(queue)@.queue),
        ensures
            final(queue).wf(),
            crate::futures_queue::polled(old(queue)@, res, final(queue)@),
            crate::iterators::yields::<BCast<T>, T>(
                old(queue)@.queue,
                self.receiver().receiver().pos(),
                res,
                final(queue)@.queue,
            ),
    {
        self.receiver.poll_again(queue)
    }

    /// Adds a stream that stands where this one does, and hands out a receiver for it.
    pub fn add_stream(&self, queue: &mut MulticastFutQueue<T>) -> (res: MulticastFutReceiver<T>)
        requires
            old(queue).wf(),
            self.receiver().receiver().belongs(old(queue)@.queue),
        ensures
            final(queue).wf(),
            !old(queue)@.queue.is_live(res.receiver().receiver().pos()),
            !old(queue)@.queue.cursor.left.contains(res.receiver().receiver().pos()),
            !old(queue)@.queue.manager.has(res.receiver().receiver().token()),
            final(queue)@ == old(queue)@.with_queue(
                old(queue)@.queue.with_stream(
                    self.receiver().receiver().pos(),
                    res.receiver().receiver().pos(),
                ).with_token(res.receiver().receiver().token()),
            ),
            res.receiver().receiver().belongs(final(queue)@.queue),
    {
        MulticastFutReceiver { receiver: self.receiver.add_stream(queue) }
    }

    /// Takes the receiver off the queue, and has the sending tasks called. Says whether it was the
    /// last consumer of its stream; if so, the stream is gone too.
    pub fn unsubscribe(self, queue: &mut MulticastFutQueue<T>) -> (res: bool)
        requires
            old(queue).wf(),
            self.receiver().receiver().belongs(old(queue)@.queue),
        ensures
            final(queue).wf(),
            res == (old(queue)@.queue.cursor.streams[self.receiver().receiver().pos()].consumers == 1),
            final(queue)@ == old(queue)@.with_queue(
                old(queue)@.queue.left_by(
                    self.receiver().receiver().pos(),
                    self.receiver().receiver().token(),
                ),
            ).with_room(),
    {
        self.receiver.unsubscribe(queue)
    }

    /// One more consumer of the stream.
    pub fn clone(&self, queue: &mut MulticastFutQueue<T>) -> (res: MulticastFutReceiver<T>)
        requires
            old(queue).wf(),
            self.receiver().receiver().belongs(old(queue)@.queue),
        ensures
            final(queue).wf(),
            res.receiver().receiver().pos() == self.receiver().receiver().pos(),
            !old(queue)@.queue.manager.has(res.receiver().receiver().token()),
            final(queue)@ == old(queue)@.with_queue(
                old(queue)@.queue.with_consumer(self.receiver().receiver().pos()).with_token(
                    res.receiver().receiver().token(),
                ),
            ),
            res.receiver().receiver().belongs(final(queue)@.queue),
    {
        MulticastFutReceiver { receiver: self.receiver.clone(queue) }
    }
}

impl<T: Clone + Sync> MulticastFutReceiver<T> {
    /// Makes the receiver one that looks at values in their place with `op`, if it is the only
    /// consumer of its stream. Another receiver takes its place in any case.
    pub fn into_single<R, F: FnMut(&T) -> R>(self, queue: &mut MulticastFutQueue<T>, op: F) -> (res: Result<
        MulticastFutUniReceiver<R, F, T>,
        (F, MulticastFutReceiver<T>),
    >)
        requires
            old(queue).wf(),
            self.receiver().receiver().belongs(old(queue)@.queue),
            old(queue)@.queue.cursor.streams[self.receiver().receiver().pos()].consumers > 0,
        ensures
            final(queue).wf(),
            ({
                let pos = self.receiver().receiver().pos();
                let token = self.receiver().receiver().token();
                &&& res is Ok <==> old(queue)@.queue.cursor.streams[pos].consumers == 1
                &&& res matches Ok(receiver) ==> {
                    let new = receiver.receiver().receiver();
                    &&& receiver.receiver().op() == op
                    &&& new.pos() == pos
                    &&& new.belongs(final(queue)@.queue)
                    &&& !old(queue)@.queue.manager.has(new.token())
                    &&& final(queue)@ == old(queue)@.with_queue(
                        old(queue)@.queue.replaced(pos, token, new.token()).single(pos),
                    ).with_room()
                }
                &&& res matches Err((given, receiver)) ==> {
                    let new = receiver.receiver().receiver();
                    &&& given == op
                    &&& new.pos() == pos
                    &&& new.belongs(final(queue)@.queue)
                    &&& !old(queue)@.queue.manager.has(new.token())
                    &&& final(queue)@ == old(queue)@.with_queue(
                        old(queue)@.queue.replaced(pos, token, new.token()),
                    ).with_room()
                }
            }),
    {
        match self.receiver.into_single(queue, op) {
            Ok(receiver) => Ok(MulticastFutUniReceiver { receiver }),
            Err((op, receiver)) => Err((op, MulticastFutReceiver { receiver })),
        }
    }
}

impl<R, F: FnMut(&T) -> R, T: Clone + Sync> MulticastFutUniReceiver<R, F, T> {
    /// The receiver.
    pub closed spec fn receiver(&self) -> FuturesSingleReceiver<BCast<T>, R, F, T> {
        self.receiver
    }

    /// What the function makes of the next value, if it is there. Has the sending tasks called.
    pub fn try_recv(&mut self, queue: &mut MulticastFutQueue<T>) -> (res: Result<R, TryRecvError>)
        requires
            old(queue).wf(),
            old(self).receiver().can_view(old(queue)@.queue),
        ensures
            final(queue).wf(),
            final(self).receiver().receiver() == old(self).receiver().receiver(),
            final(self).receiver().op() == old(self).receiver().op(),
            final(queue)@ == old(queue)@.with_queue(final(queue)@.queue).with_room(),
            ({
                let receiver = old(self).receiver().receiver();
                let op = old(self).receiver().op();
                let seen = old(queue)@.queue.attended(receiver.token());
                if seen.is_readable(receiver.pos()) {
                    res matches Ok(val) && seen.views(receiver.pos(), op, val, final(queue)@.queue)
                } else {
                    &&& res == Err::<R, TryRecvError>(seen.why_empty(receiver.pos()).1)
                    &&& final(queue)@.queue == seen
                }
            }),
    {
        self.receiver.try_recv(queue)
    }

    /// What the function makes of the next value, or an error if there are no senders. If the
    /// value is not there yet, says what to wait for before `recv_again`. Has the sending tasks
    /// called when it is done.
    pub fn recv(&mut self, queue: &mut MulticastFutQueue<T>) -> (res: Blocking<Result<R, RecvError>>)
        requires
            old(queue).wf(),
            old(self).receiver().can_view(old(queue)@.queue),
        ensures
            final(queue).wf(),
            final(self).receiver().receiver() == old(self).receiver().receiver(),
            final(self).receiver().op() == old(self).receiver().op(),
            crate::futures_queue::received_view(
                old(queue)@,
                old(queue)@.queue.attended(old(self).receiver().receiver().token()),
                old(self).receiver().receiver().pos(),
                old(self).receiver().op(),
                res,
                final(queue)@,
            ),
    {
        self.receiver.recv(queue)
    }

    /// Goes on with `recv` after a wait.
    pub fn recv_again(&mut self, queue: &mut MulticastFutQueue<T>) -> (res: Blocking<Result<R, RecvError>>)
        requires
            old(queue).wf(),
            old(self).receiver().can_view(old(queue)@.queue),
        ensures
            final(queue).wf(),
            final(self).receiver().receiver() == old(self).receiver().receiver(),
            final(self).receiver().op() == old(self).receiver().op(),
            crate::futures_queue::received_view(
                old(queue)@,
                old(queue)@.queue,
                old(self).receiver().receiver().pos(),
                old(self).receiver().op(),
                res,
                final(queue)@,
            ),
    {
        self.receiver.recv_again(queue)
    }

    /// What the function makes of the next value, or nothing if there are no senders. If the value
    /// is not there yet, says what to wait for before `poll_again`.
    pub fn poll(&mut self, queue: &mut MulticastFutQueue<T>) -> (res: Blocking<Option<R>>)
        requires
            old(queue).wf(),
            old(self).receiver().can_view(old(queue)@.queue),
        ensures
            final(queue).wf(),
            final(self).receiver().receiver() == old(self).receiver().receiver(),
            final(self).receiver().op() == old(self).receiver().op(),
            crate::futures_queue::polled(old(queue)@, res, final(queue)@),
            crate::iterators::yields_view(
                old(queue)@.queue.attended(old(self).receiver().receiver().token()),
                old(self).receiver().receiver().pos(),
                old(self).receiver().op(),
                res,
                final(queue)@.queue,
            ),
    {
        self.receiver.poll(queue)
    }

    /// Goes on with `poll` after a wait.
    pub fn poll_again(&mut self, queue: &mut MulticastFutQueue<T>) -> (res: Blocking<Option<R>>)
        requires
            old(queue).wf(),
            old(self).receiver().can_view(old(queue)@.queue),
        ensures
            final(queue).wf(),
            final(self).receiver().receiver() == old(self).receiver().receiver(),
            final(self).receiver().op() == old(self).receiver().op(),
            crate::futures_queue::polled(old(queue)@, res, final(queue)@),
            crate::iterators::yields_view(
                old(queue)@.queue,
                old(self).receiver().receiver().pos(),
                old(self).receiver().op(),
                res,
                final(queue)@.queue,
            ),
    {
        self.receiver.poll_again(queue)
    }

    /// Adds a stream that stands where this one does, and hands out its only receiver, which looks
    /// at values with `op`.
    pub fn add_stream_with<RQ, FQ: FnMut(&T) -> RQ>(&self, queue: &mut MulticastFutQueue<T>, op: FQ) -> (res:
        MulticastFutUniReceiver<RQ, FQ, T>)
        requires
            old(queue).wf(),
            self.receiver().receiver().belongs(old(queue)@.queue),
        ensures
            final(queue).wf(),
            res.receiver().op() == op,
            !old(queue)@.queue.is_live(res.receiver().receiver().pos()),
            !old(queue)@.queue.cursor.left.contains(res.receiver().receiver().pos()),
            !old(queue)@.queue.manager.has(res.receiver().receiver().token()),
            final(queue)@ == old(queue)@.with_queue(
                old(queue)@.queue.with_stream(
                    self.receiver().receiver().pos(),
                    res.receiver().receiver().pos(),
                ).with_token(res.receiver().receiver().token()),
            ),
            res.receiver().receiver().belongs(final(queue)@.queue),
            self.receiver().receiver().belongs(final(queue)@.queue),
    {
        MulticastFutUniReceiver { receiver: self.receiver.add_stream_with(queue, op) }
    }

    /// Takes the receiver off the queue, and its stream with it, and has the sending tasks called.
    pub fn unsubscribe(self, queue: &mut MulticastFutQueue<T>) -> (res: bool)
        requires
            old(queue).wf(),
            self.receiver().receiver().belongs(old(queue)@.queue),
        ensures
            final(queue).wf(),
            res,
            final(queue)@ == old(queue)@.with_queue(
                old(queue)@.queue.left_by(
                    self.receiver().receiver().pos(),
                    self.receiver().receiver().token(),
                ),
            ).with_room(),
    {
        self.receiver.unsubscribe(queue)
    }
}

} // verus!
