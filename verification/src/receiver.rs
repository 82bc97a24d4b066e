//! Receivers.
use vstd::prelude::*;

use core::marker::PhantomData;

use crate::errors::{RecvError, TryRecvError};
use crate::model::QueueView;
use crate::multiqueue::{DoDrop, MultiQueue};
use crate::read_cursor::Reader;
use crate::wait::{Blocking, WaitOn};

verus! {

/// The receiving half of a queue: one of the consumers of a stream.
#[verifier::reject_recursive_types(D)]
#[verifier::reject_recursive_types(T)]
pub struct Receiver<D: DoDrop<T>, T> {
    reader: Reader,
    token: usize,
    alive: bool,
    mk: PhantomData<(D, T)>,
}

impl<D: DoDrop<T>, T> Receiver<D, T> {
    /// The stream that the receiver consumes.
    pub closed spec fn pos(&self) -> usize {
        self.reader.pos
    }

    /// The token under which the receiver is registered.
    pub closed spec fn token(&self) -> usize {
        self.token
    }

    /// The receiver was not taken off its queue.
    pub closed spec fn is_alive(&self) -> bool {
        self.alive
    }

    /// The receiver is one of the queue.
    pub open spec fn belongs(&self, queue: QueueView<T>) -> bool {
        &&& self.is_alive()
        &&& queue.is_live(self.pos())
        &&& queue.manager.has(self.token())
    }

    /// The first consumer of a stream.
    pub(crate) fn first(reader: Reader, token: usize) -> (res: Receiver<D, T>)
        ensures
            res.pos() == reader.pos,
            res.token() == token,
            res.is_alive(),
    {
        Receiver { reader, token, alive: true, mk: PhantomData }
    }

    /// Tries to receive the next value of the stream, without waiting for it.
    pub fn try_recv(&self, queue: &mut MultiQueue<D, T>) -> (res: Result<T, TryRecvError>)
        requires
            old(queue).wf(),
            self.belongs(old(queue)@),
        ensures
            final(queue).wf(),
            old(queue)@.attended(self.token()).receives::<D>(self.pos(), res, final(queue)@),
            self.belongs(final(queue)@),
    {
        self.examine_signals(queue);
        match queue.try_recv(&self.reader) {
            Ok(v) => Ok(v),
            Err((_, e)) => Err(e),
        }
    }

    /// Receives the next value of the stream. If it is not there yet, says what to wait for
    /// before `recv_again`.
    pub fn recv(&self, queue: &mut MultiQueue<D, T>) -> (res: Blocking<Result<T, RecvError>>)
        requires
            old(queue).wf(),
            self.belongs(old(queue)@),
        ensures
            final(queue).wf(),
            old(queue)@.attended(self.token()).awaits::<D>(self.pos(), res, final(queue)@),
            self.belongs(final(queue)@),
    {
        self.examine_signals(queue);
        self.recv_again(queue)
    }

    /// Goes on with `recv` after a wait.
    pub fn recv_again(&self, queue: &mut MultiQueue<D, T>) -> (res: Blocking<Result<T, RecvError>>)
        requires
            old(queue).wf(),
            self.belongs(old(queue)@),
        ensures
            final(queue).wf(),
            old(queue)@.awaits::<D>(self.pos(), res, final(queue)@),
            self.belongs(final(queue)@),
    {
        match queue.try_recv(&self.reader) {
            Ok(v) => Blocking::Done(Ok(v)),
            Err((Some(slot), TryRecvError::Empty)) => {
                let seq: usize = queue.load_count(&self.reader);
                Blocking::Wait(WaitOn { seq, slot })
            },
            Err(_) => Blocking::Done(Err(RecvError)),
        }
    }

    /// Adds a stream that stands where this one does, and hands out a receiver for it.
    pub fn add_stream(&self, queue: &mut MultiQueue<D, T>) -> (res: Receiver<D, T>)
        requires
            old(queue).wf(),
            D::shares(),
            self.belongs(old(queue)@),
        ensures
            final(queue).wf(),
            !old(queue)@.is_live(res.pos()),
            !old(queue)@.cursor.left.contains(res.pos()),
            !old(queue)@.manager.has(res.token()),
            final(queue)@ == old(queue)@.with_stream(self.pos(), res.pos()).with_token(res.token()),
            res.belongs(final(queue)@),
            self.belongs(final(queue)@),
    {
        let reader = queue.add_stream(&self.reader);
        let token: usize = queue.get_token();
        proof {
            crate::lists::lemma_push_contains(old(queue)@.manager.tokens, token, token);
            crate::lists::lemma_push_contains(old(queue)@.manager.tokens, token, self.token);
        }
        Receiver { reader, token, alive: true, mk: PhantomData }
    }

    /// Makes the receiver one that can look at values in their place, if it is the only consumer
    /// of its stream.
    pub fn into_single(self, queue: &mut MultiQueue<D, T>) -> (res: Result<
        SingleReceiver<D, T>,
        Receiver<D, T>,
    >)
        requires
            old(queue).wf(),
            self.belongs(old(queue)@),
        ensures
            final(queue).wf(),
            old(queue)@.cursor.streams[self.pos()].consumers == 1 ==> {
                &&& res matches Ok(single) && single.receiver() == self && single.belongs(final(queue)@)
                &&& final(queue)@ == old(queue)@.single(self.pos())
            },
            old(queue)@.cursor.streams[self.pos()].consumers != 1 ==> {
                &&& res == Err::<SingleReceiver<D, T>, Receiver<D, T>>(self)
                &&& final(queue)@ == old(queue)@
            },
    {
        if queue.is_single(&self.reader) {
            Ok(SingleReceiver { reader: self })
        } else {
            Err(self)
        }
    }

    /// Does what the flags of the queue ask for.
    fn examine_signals(&self, queue: &mut MultiQueue<D, T>)
        requires
            old(queue).wf(),
            self.belongs(old(queue)@),
        ensures
            final(queue).wf(),
            final(queue)@ == old(queue)@.attended(self.token()),
    {
        queue.attend(self.token);
    }

    /// Takes the receiver off the queue. Says whether it was the last consumer of its stream; if
    /// so, the stream is gone too.
    pub fn unsubscribe(self, queue: &mut MultiQueue<D, T>) -> (res: bool)
        requires
            old(queue).wf(),
            self.belongs(old(queue)@),
        ensures
            final(queue).wf(),
            res == (old(queue)@.cursor.streams[self.pos()].consumers == 1),
            final(queue)@ == old(queue)@.left_by(self.pos(), self.token()),
    {
        let last: bool = queue.get_consumers(&self.reader) == 1;
        self.leave(queue);
        last
    }

    /// Takes the receiver off the queue, and runs a function after that. Does nothing the second
    /// time.
    pub fn do_unsubscribe_with<F: FnOnce()>(&mut self, queue: &mut MultiQueue<D, T>, f: F)
        requires
            old(queue).wf(),
            old(self).is_alive() ==> old(self).belongs(old(queue)@),
            f.requires(()),
        ensures
            final(queue).wf(),
            !final(self).is_alive(),
            final(self).pos() == old(self).pos(),
            final(self).token() == old(self).token(),
            old(self).is_alive() ==> {
                &&& final(queue)@ == old(queue)@.left_by(old(self).pos(), old(self).token())
                &&& f.ensures((), ())
            },
            !old(self).is_alive() ==> *final(queue) == *old(queue),
    {
        if self.alive {
            self.leave(queue);
            self.alive = false;
            f();
        }
    }

    /// Takes the receiver off the queue.
    fn leave(&self, queue: &mut MultiQueue<D, T>)
        requires
            old(queue).wf(),
            self.belongs(old(queue)@),
        ensures
            final(queue).wf(),
            final(queue)@ == old(queue)@.left_by(self.pos(), self.token()),
    {
        if queue.remove_consumer(&self.reader) == 1 {
            queue.remove_reader(&self.reader);
            queue.remove_token(self.token);
        }
    }

    /// One more consumer of the stream.
    pub fn clone(&self, queue: &mut MultiQueue<D, T>) -> (res: Receiver<D, T>)
        requires
            old(queue).wf(),
            self.belongs(old(queue)@),
        ensures
            final(queue).wf(),
            res.pos() == self.pos(),
            !old(queue)@.manager.has(res.token()),
            final(queue)@ == old(queue)@.with_consumer(self.pos()).with_token(res.token()),
            res.belongs(final(queue)@),
            self.belongs(final(queue)@),
    {
        queue.dup_consumer(&self.reader);
        let token: usize = queue.get_token();
        proof {
            crate::lists::lemma_push_contains(old(queue)@.manager.tokens, token, token);
            crate::lists::lemma_push_contains(old(queue)@.manager.tokens, token, self.token);
        }
        Receiver { reader: self.reader, token, alive: true, mk: PhantomData }
    }
}

/// A receiver that is the only consumer of its stream, and so can look at values in their place.
#[verifier::reject_recursive_types(D)]
#[verifier::reject_recursive_types(T)]
pub struct SingleReceiver<D: DoDrop<T>, T> {
    reader: Receiver<D, T>,
}

impl<D: DoDrop<T>, T> SingleReceiver<D, T> {
    /// The receiver.
    pub closed spec fn receiver(&self) -> Receiver<D, T> {
        self.reader
    }

    /// The stream that the receiver consumes.
    pub open spec fn pos(&self) -> usize {
        self.receiver().pos()
    }

    /// The token under which the receiver is registered.
    pub open spec fn token(&self) -> usize {
        self.receiver().token()
    }

    /// The receiver is one of the queue, and the only consumer of its stream.
    pub open spec fn belongs(&self, queue: QueueView<T>) -> bool {
        &&& self.receiver().belongs(queue)
        &&& queue.cursor.streams[self.pos()].consumers == 1
    }

    /// Tries to receive the next value of the stream, without waiting for it.
    pub fn try_recv(&self, queue: &mut MultiQueue<D, T>) -> (res: Result<T, TryRecvError>)
        requires
            old(queue).wf(),
            self.belongs(old(queue)@),
        ensures
            final(queue).wf(),
            old(queue)@.attended(self.token()).receives::<D>(self.pos(), res, final(queue)@),
            self.belongs(final(queue)@),
    {
        self.reader.try_recv(queue)
    }

    /// Receives the next value of the stream. If it is not there yet, says what to wait for
    /// before `recv_again`.
    pub fn recv(&self, queue: &mut MultiQueue<D, T>) -> (res: Blocking<Result<T, RecvError>>)
        requires
            old(queue).wf(),
            self.belongs(old(queue)@),
        ensures
            final(queue).wf(),
            old(queue)@.attended(self.token()).awaits::<D>(self.pos(), res, final(queue)@),
            self.belongs(final(queue)@),
    {
        self.reader.recv(queue)
    }

    /// Goes on with `recv` after a wait.
    pub fn recv_again(&self, queue: &mut MultiQueue<D, T>) -> (res: Blocking<Result<T, RecvError>>)
        requires
            old(queue).wf(),
            self.belongs(old(queue)@),
        ensures
            final(queue).wf(),
            old(queue)@.awaits::<D>(self.pos(), res, final(queue)@),
            self.belongs(final(queue)@),
    {
        self.reader.recv_again(queue)
    }

    /// Applies a function to the next value, in its place. If there is none, hands the function
    /// back.
    pub fn try_recv_view<R, F: FnOnce(&T) -> R>(&self, queue: &mut MultiQueue<D, T>, op: F) -> (res: Result<
        R,
        (F, TryRecvError),
    >)
        requires
            old(queue).wf(),
            self.belongs(old(queue)@),
            old(queue)@.can_view(self.pos(), op),
        ensures
            final(queue).wf(),
            old(queue)@.attended(self.token()).tries_view(self.pos(), op, res, final(queue)@),
            self.belongs(final(queue)@),
    {
        self.reader.examine_signals(queue);
        match queue.try_recv_view(op, &self.reader.reader) {
            Ok(v) => Ok(v),
            Err((op, _, e)) => Err((op, e)),
        }
    }

    /// Applies a function to the next value, in its place. If the value is not there yet, hands
    /// the function back, and says what to wait for before `recv_view_again`.
    pub fn recv_view<R, F: FnOnce(&T) -> R>(&self, queue: &mut MultiQueue<D, T>, op: F) -> (res: Result<
        R,
        (F, Blocking<RecvError>),
    >)
        requires
            old(queue).wf(),
            self.belongs(old(queue)@),
            old(queue)@.can_view(self.pos(), op),
        ensures
            final(queue).wf(),
            old(queue)@.attended(self.token()).awaits_view(self.pos(), op, res, final(queue)@),
            self.belongs(final(queue)@),
    {
        self.reader.examine_signals(queue);
        self.recv_view_again(queue, op)
    }

    /// Goes on with `recv_view` after a wait.
    pub fn recv_view_again<R, F: FnOnce(&T) -> R>(&self, queue: &mut MultiQueue<D, T>, op: F) -> (res: Result<
        R,
        (F, Blocking<RecvError>),
    >)
        requires
            old(queue).wf(),
            self.belongs(old(queue)@),
            old(queue)@.can_view(self.pos(), op),
        ensures
            final(queue).wf(),
            old(queue)@.awaits_view(self.pos(), op, res, final(queue)@),
            self.belongs(final(queue)@),
    {
        match queue.try_recv_view(op, &self.reader.reader) {
            Ok(v) => Ok(v),
            Err((op, Some(slot), TryRecvError::Empty)) => {
                let seq: usize = queue.load_count(&self.reader.reader);
                Err((op, Blocking::Wait(WaitOn { seq, slot })))
            },
            Err((op, _, _)) => Err((op, Blocking::Done(RecvError))),
        }
    }

    /// Does what `try_recv_view` does, with a function that stays with its owner.
    pub fn try_recv_with<R, F: FnMut(&T) -> R>(&self, queue: &mut MultiQueue<D, T>, op: &mut F) -> (res: Result<
        R,
        TryRecvError,
    >)
        requires
            old(queue).wf(),
            self.belongs(old(queue)@),
            old(queue)@.can_view(self.pos(), *old(op)),
        ensures
            final(queue).wf(),
            *final(op) == *old(op),
            ({
                let seen = old(queue)@.attended(self.token());
                if seen.is_readable(self.pos()) {
                    res matches Ok(val) && seen.views(self.pos(), *old(op), val, final(queue)@)
                } else {
                    &&& res == Err::<R, TryRecvError>(seen.why_empty(self.pos()).1)
                    &&& final(queue)@ == seen
                }
            }),
            self.belongs(final(queue)@),
    {
        self.reader.examine_signals(queue);
        match queue.try_recv_with(op, &self.reader.reader) {
            Ok(v) => Ok(v),
            Err((_, e)) => Err(e),
        }
    }

    /// What a function makes of the next value, or nothing if there are no senders. If the value
    /// is not there yet, says what to wait for before `recv_with_again`.
    pub fn recv_with<R, F: FnMut(&T) -> R>(&self, queue: &mut MultiQueue<D, T>, op: &mut F) -> (res: Blocking<
        Option<R>,
    >)
        requires
            old(queue).wf(),
            self.belongs(old(queue)@),
            old(queue)@.can_view(self.pos(), *old(op)),
        ensures
            final(queue).wf(),
            *final(op) == *old(op),
            crate::iterators::yields_view(
                old(queue)@.attended(self.token()),
                self.pos(),
                *old(op),
                res,
                final(queue)@,
            ),
            self.belongs(final(queue)@),
    {
        self.reader.examine_signals(queue);
        self.recv_with_again(queue, op)
    }

    /// Goes on with `recv_with` after a wait.
    pub fn recv_with_again<R, F: FnMut(&T) -> R>(&self, queue: &mut MultiQueue<D, T>, op: &mut F) -> (res:
        Blocking<Option<R>>)
        requires
            old(queue).wf(),
            self.belongs(old(queue)@),
            old(queue)@.can_view(self.pos(), *old(op)),
        ensures
            final(queue).wf(),
            *final(op) == *old(op),
            crate::iterators::yields_view(old(queue)@, self.pos(), *old(op), res, final(queue)@),
            self.belongs(final(queue)@),
    {
        match queue.try_recv_with(op, &self.reader.reader) {
            Ok(v) => Blocking::Done(Some(v)),
            Err((Some(slot), TryRecvError::Empty)) => {
                let seq: usize = queue.load_count(&self.reader.reader);
                Blocking::Wait(WaitOn { seq, slot })
            },
            Err(_) => Blocking::Done(None),
        }
    }

    /// Adds a stream that stands where this one does, and hands out its only receiver.
    pub fn add_stream(&self, queue: &mut MultiQueue<D, T>) -> (res: SingleReceiver<D, T>)
        requires
            old(queue).wf(),
            D::shares(),
            self.belongs(old(queue)@),
        ensures
            final(queue).wf(),
            !old(queue)@.is_live(res.pos()),
            !old(queue)@.cursor.left.contains(res.pos()),
            !old(queue)@.manager.has(res.token()),
            final(queue)@ == old(queue)@.with_stream(self.pos(), res.pos()).with_token(res.token()),
            res.belongs(final(queue)@),
            self.belongs(final(queue)@),
    {
        let reader = self.reader.add_stream(queue);
        let ghost mid = queue@;
        match reader.into_single(queue) {
            Ok(single) => {
                proof {
                    assert(queue@ =~= mid);
                }
                single
            },
            Err(reader) => SingleReceiver { reader },
        }
    }

    /// Makes the receiver one of which there can be more.
    pub fn into_multi(self) -> (res: Receiver<D, T>)
        ensures
            res == self.receiver(),
    {
        self.reader
    }

    /// Takes the receiver off the queue, and its stream with it.
    pub fn unsubscribe(self, queue: &mut MultiQueue<D, T>) -> (res: bool)
        requires
            old(queue).wf(),
            self.belongs(old(queue)@),
        ensures
            final(queue).wf(),
            res,
            final(queue)@ == old(queue)@.left_by(self.pos(), self.token()),
    {
        self.reader.unsubscribe(queue)
    }
}

/// Who is a receiver of a queue: one that has not left, whose stream is there and whose token is
/// registered; and who can look at values in their place: one that is alone on its stream. To look at
/// a value, the function must accept that value.
pub proof fn lemma_belongs<D: DoDrop<T>, T, R, F: FnOnce(&T) -> R>(
    receiver: Receiver<D, T>,
    single: SingleReceiver<D, T>,
    queue: QueueView<T>,
    pos: usize,
    op: F,
)
    ensures
        receiver.belongs(queue) <==> {
            &&& receiver.is_alive()
            &&& queue.positions.dom().contains(receiver.pos())
            &&& queue.manager.noted.dom().contains(receiver.token())
        },
        single.pos() == single.receiver().pos(),
        single.token() == single.receiver().token(),
        single.belongs(queue) <==> single.receiver().belongs(queue)
            && queue.cursor.streams[single.receiver().pos()].consumers == 1,
        queue.can_view(pos, op) <==> {
            let place = queue.positions[pos];
            place < queue.log.len() && queue.log[place as int] is Some ==> op.requires(
                (&queue.log[place as int]->0,),
            )
        },
{
}

} // verus!
