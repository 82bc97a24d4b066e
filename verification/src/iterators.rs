//! Iteration over the values of a stream.
use vstd::prelude::*;

use crate::model::QueueView;
use crate::multiqueue::{DoDrop, MultiQueue};
use crate::receiver::{Receiver, SingleReceiver};
use crate::wait::Blocking;

verus! {

/// `res` and `after` are what comes of asking for the next value of the stream at `pos`, where the
/// iterator waits for a value and ends when there are no senders.
pub open spec fn yields<D: DoDrop<T>, T>(
    before: QueueView<T>,
    pos: usize,
    res: Blocking<Option<T>>,
    after: QueueView<T>,
) -> bool {
    if before.is_readable(pos) {
        &&& res matches Blocking::Done(Some(val)) && D::delivers(before.next_value(pos), val)
        &&& after == before.advanced(pos)
    } else {
        &&& res == if before.writers == 0 {
            Blocking::Done(None::<T>)
        } else {
            Blocking::Wait(before.awaited(pos))
        }
        &&& after == before
    }
}

/// `res` and `after` are what comes of asking for the next value of the stream at `pos`, where the
/// iterator ends when the value is not there.
pub open spec fn yields_now<D: DoDrop<T>, T>(
    before: QueueView<T>,
    pos: usize,
    res: Option<T>,
    after: QueueView<T>,
) -> bool {
    if before.is_readable(pos) {
        &&& res matches Some(val) && D::delivers(before.next_value(pos), val)
        &&& after == before.advanced(pos)
    } else {
        &&& res is None
        &&& after == before
    }
}

/// `res` and `after` are what comes of asking for what `op` makes of the next value of the stream
/// at `pos`, where the iterator waits for a value and ends when there are no senders.
pub open spec fn yields_view<T, R, F: FnMut(&T) -> R>(
    before: QueueView<T>,
    pos: usize,
    op: F,
    res: Blocking<Option<R>>,
    after: QueueView<T>,
) -> bool {
    if before.is_readable(pos) {
        res matches Blocking::Done(Some(val)) && before.views(pos, op, val, after)
    } else {
        &&& res == if before.writers == 0 {
            Blocking::Done(None::<R>)
        } else {
            Blocking::Wait(before.awaited(pos))
        }
        &&& after == before
    }
}

/// `res` and `after` are what comes of asking for what `op` makes of the next value of the stream
/// at `pos`, where the iterator ends when the value is not there.
pub open spec fn yields_view_now<T, R, F: FnMut(&T) -> R>(
    before: QueueView<T>,
    pos: usize,
    op: F,
    res: Option<R>,
    after: QueueView<T>,
) -> bool {
    if before.is_readable(pos) {
        res matches Some(val) && before.views(pos, op, val, after)
    } else {
        &&& res is None
        &&& after == before
    }
}

/// All values that a receiver gets until there are no senders.
#[verifier::reject_recursive_types(D)]
#[verifier::reject_recursive_types(T)]
pub struct RecvIterator<D: DoDrop<T>, T> {
    reader: Receiver<D, T>,
}

impl<D: DoDrop<T>, T> Receiver<D, T> {
    /// All values that the receiver gets until there are no senders.
    pub fn into_iter(self) -> (res: RecvIterator<D, T>)
        ensures
            res.receiver() == self,
    {
        RecvIterator { reader: self }
    }

    /// The values that the receiver gets until one is not there.
    pub fn partial_iter(&self) -> (res: RecvPartialIterator<D, T>)
        ensures
            res.receiver() == *self,
    {
        RecvPartialIterator { reader: self }
    }
}

impl<D: DoDrop<T>, T> RecvIterator<D, T> {
    /// The receiver.
    pub closed spec fn receiver(&self) -> Receiver<D, T> {
        self.reader
    }

    /// The next value, or nothing if there are no senders. If the value is not there yet, says
    /// what to wait for before `next_again`.
    pub fn next(&mut self, queue: &mut MultiQueue<D, T>) -> (res: Blocking<Option<T>>)
        requires
            old(queue).wf(),
            old(self).receiver().belongs(old(queue)@),
        ensures
            final(queue).wf(),
            final(self).receiver() == old(self).receiver(),
            ({
                let receiver = old(self).receiver();
                yields::<D, T>(old(queue)@.attended(receiver.token()), receiver.pos(), res, final(queue)@)
            }),
    {
        match self.reader.recv(queue) {
            Blocking::Done(Ok(val)) => Blocking::Done(Some(val)),
            Blocking::Done(Err(_)) => Blocking::Done(None),
            Blocking::Wait(on) => Blocking::Wait(on),
        }
    }

    /// Goes on with `next` after a wait.
    pub fn next_again(&mut self, queue: &mut MultiQueue<D, T>) -> (res: Blocking<Option<T>>)
        requires
            old(queue).wf(),
            old(self).receiver().belongs(old(queue)@),
        ensures
            final(queue).wf(),
            final(self).receiver() == old(self).receiver(),
            yields::<D, T>(old(queue)@, old(self).receiver().pos(), res, final(queue)@),
    {
        match self.reader.recv_again(queue) {
            Blocking::Done(Ok(val)) => Blocking::Done(Some(val)),
            Blocking::Done(Err(_)) => Blocking::Done(None),
            Blocking::Wait(on) => Blocking::Wait(on),
        }
    }

    /// The receiver.
    pub fn get_recv(self) -> (res: Receiver<D, T>)
        ensures
            res == self.receiver(),
    {
        self.reader
    }
}

/// The values that a receiver gets until one is not there.
#[verifier::reject_recursive_types(D)]
#[verifier::reject_recursive_types(T)]
pub struct RecvPartialIterator<'a, D: DoDrop<T>, T> {
    reader: &'a Receiver<D, T>,
}

impl<'a, D: DoDrop<T>, T> RecvPartialIterator<'a, D, T> {
    /// The receiver.
    pub closed spec fn receiver(&self) -> Receiver<D, T> {
        *self.reader
    }

    /// The next value, or nothing if it is not there.
    pub fn next(&mut self, queue: &mut MultiQueue<D, T>) -> (res: Option<T>)
        requires
            old(queue).wf(),
            old(self).receiver().belongs(old(queue)@),
        ensures
            final(queue).wf(),
            final(self).receiver() == old(self).receiver(),
            ({
                let receiver = old(self).receiver();
                yields_now::<D, T>(old(queue)@.attended(receiver.token()), receiver.pos(), res, final(queue)@)
            }),
    {
        match self.reader.try_recv(queue) {
            Ok(val) => Some(val),
            Err(_) => None,
        }
    }
}

impl<D: DoDrop<T>, T> SingleReceiver<D, T> {
    /// What `op` makes of all values that the receiver gets until there are no senders.
    pub fn iter_with<R, F: FnMut(&T) -> R>(self, op: F) -> (res: RecvViewIterator<D, R, F, T>)
        ensures
            res.receiver() == self,
            res.op() == op,
    {
        RecvViewIterator { vals: (op, self) }
    }

    /// What `op` makes of the values that the receiver gets until one is not there.
    pub fn partial_iter_with<'a, R, F: FnMut(&T) -> R>(&'a self, op: F) -> (res: RecvPartialViewIterator<
        'a,
        D,
        R,
        F,
        T,
    >)
        ensures
            res.receiver() == *self,
            res.op() == op,
    {
        RecvPartialViewIterator { vals: (op, self) }
    }
}

/// What a function makes of all values that a receiver gets until there are no senders.
#[verifier::reject_recursive_types(D)]
#[verifier::reject_recursive_types(R)]
#[verifier::reject_recursive_types(F)]
#[verifier::reject_recursive_types(T)]
pub struct RecvViewIterator<D: DoDrop<T>, R, F: FnMut(&T) -> R, T> {
    vals: (F, SingleReceiver<D, T>),
}

impl<D: DoDrop<T>, R, F: FnMut(&T) -> R, T> RecvViewIterator<D, R, F, T> {
    /// The receiver.
    pub closed spec fn receiver(&self) -> SingleReceiver<D, T> {
        self.vals.1
    }

    /// The function.
    pub closed spec fn op(&self) -> F {
        self.vals.0
    }

    /// What the function makes of the next value, or nothing if there are no senders. If the
    /// value is not there yet, says what to wait for before `next_again`.
    pub fn next(&mut self, queue: &mut MultiQueue<D, T>) -> (res: Blocking<Option<R>>)
        requires
            old(queue).wf(),
            old(self).receiver().belongs(old(queue)@),
            old(queue)@.can_view(old(self).receiver().pos(), old(self).op()),
        ensures
            final(queue).wf(),
            final(self).receiver() == old(self).receiver(),
            final(self).op() == old(self).op(),
            ({
                let receiver = old(self).receiver();
                yields_view(
                    old(queue)@.attended(receiver.token()),
                    receiver.pos(),
                    old(self).op(),
                    res,
                    final(queue)@,
                )
            }),
    {
        self.vals.1.recv_with(queue, &mut self.vals.0)
    }

    /// Goes on with `next` after a wait.
    pub fn next_again(&mut self, queue: &mut MultiQueue<D, T>) -> (res: Blocking<Option<R>>)
        requires
            old(queue).wf(),
            old(self).receiver().belongs(old(queue)@),
            old(queue)@.can_view(old(self).receiver().pos(), old(self).op()),
        ensures
            final(queue).wf(),
            final(self).receiver() == old(self).receiver(),
            final(self).op() == old(self).op(),
            yields_view(old(queue)@, old(self).receiver().pos(), old(self).op(), res, final(queue)@),
    {
        self.vals.1.recv_with_again(queue, &mut self.vals.0)
    }

    /// The same with another function.
    pub fn with_transform<Q, FQ: FnMut(&T) -> Q>(self, op: FQ) -> (res: RecvViewIterator<D, Q, FQ, T>)
        ensures
            res.receiver() == self.receiver(),
            res.op() == op,
    {
        let (_, myr) = self.vals;
        RecvViewIterator { vals: (op, myr) }
    }

    /// The receiver.
    pub fn get_receiver(self) -> (res: SingleReceiver<D, T>)
        ensures
            res == self.receiver(),
    {
        self.vals.1
    }
}

/// What a function makes of the values that a receiver gets until one is not there.
#[verifier::reject_recursive_types(D)]
#[verifier::reject_recursive_types(R)]
#[verifier::reject_recursive_types(F)]
#[verifier::reject_recursive_types(T)]
pub struct RecvPartialViewIterator<'a, D: DoDrop<T>, R, F: FnMut(&T) -> R, T> {
    vals: (F, &'a SingleReceiver<D, T>),
}

impl<'a, D: DoDrop<T>, R, F: FnMut(&T) -> R, T> RecvPartialViewIterator<'a, D, R, F, T> {
    /// The receiver.
    pub closed spec fn receiver(&self) -> SingleReceiver<D, T> {
        *self.vals.1
    }

    /// The function.
    pub closed spec fn op(&self) -> F {
        self.vals.0
    }

    /// What the function makes of the next value, or nothing if it is not there.
    pub fn next(&mut self, queue: &mut MultiQueue<D, T>) -> (res: Option<R>)
        requires
            old(queue).wf(),
            old(self).receiver().belongs(old(queue)@),
            old(queue)@.can_view(old(self).receiver().pos(), old(self).op()),
        ensures
            final(queue).wf(),
            final(self).receiver() == old(self).receiver(),
            final(self).op() == old(self).op(),
            ({
                let receiver = old(self).receiver();
                yields_view_now(
                    old(queue)@.attended(receiver.token()),
                    receiver.pos(),
                    old(self).op(),
                    res,
                    final(queue)@,
                )
            }),
    {
        match self.vals.1.try_recv_with(queue, &mut self.vals.0) {
            Ok(val) => Some(val),
            Err(_) => None,
        }
    }

    /// The same with another function.
    pub fn with_transform<Q, FQ: FnMut(&T) -> Q>(self, op: FQ) -> (res: RecvPartialViewIterator<
        'a,
        D,
        Q,
        FQ,
        T,
    >)
        ensures
            res.receiver() == self.receiver(),
            res.op() == op,
    {
        let (_, myr) = self.vals;
        RecvPartialViewIterator { vals: (op, myr) }
    }
}

} // verus!
