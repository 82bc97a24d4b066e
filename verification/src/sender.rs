//! Senders.
use vstd::prelude::*;

use core::marker::PhantomData;

use crate::errors::TrySendError;
use crate::model::QueueView;
use crate::multiqueue::{DoDrop, MultiQueue};

verus! {

/// Whether a sender knows that it is alone.
#[derive(Clone, Copy, Debug, PartialEq, Eq, Structural)]
pub enum QueueState {
    Single,
    Multi,
}

impl QueueState {
    /// What a sender knows after a try to send.
    pub open spec fn after_send<T>(self, queue: QueueView<T>) -> QueueState {
        if !queue.is_deserted() && queue.writers == 1 {
            QueueState::Single
        } else {
            self
        }
    }
}

/// Of the senders of a queue, none thinks that it is alone if it is not.
pub open spec fn none_mistaken<T>(states: Seq<QueueState>, queue: QueueView<T>) -> bool {
    &&& states.len() == queue.writers
    &&& forall|i: int| 0 <= i < states.len() && (#[trigger] states[i]) == QueueState::Single ==> states.len() == 1
}

/// No sender ever thinks that it is alone if it is not: senders find out when the others have
/// left, and are told when another one comes.
pub proof fn lemma_none_mistaken<T>(states: Seq<QueueState>, queue: QueueView<T>, i: int, token: usize)
    requires
        none_mistaken(states, queue),
        0 <= i < states.len(),
    ensures
        none_mistaken(states.update(i, states[i].after_send(queue)), queue),
        queue.writers < usize::MAX ==> none_mistaken(
            states.update(i, QueueState::Multi).push(QueueState::Multi),
            queue.with_writer(token),
        ),
        none_mistaken(states.remove(i), queue.without_writer(token)),
{
    let fewer = states.remove(i);
    assert forall|k: int| 0 <= k < fewer.len() && (#[trigger] fewer[k]) == QueueState::Single implies fewer.len()
        == 1 by {
        assert(fewer[k] == states[if k < i { k } else { k + 1 }]);
    }
}

/// The sending half of a queue.
#[verifier::reject_recursive_types(D)]
#[verifier::reject_recursive_types(T)]
pub struct Sender<D: DoDrop<T>, T> {
    token: usize,
    state: QueueState,
    mk: PhantomData<(D, T)>,
}

impl<D: DoDrop<T>, T> Sender<D, T> {
    /// The token under which the sender is registered.
    pub closed spec fn token(&self) -> usize {
        self.token
    }

    /// What the sender knows of other senders.
    pub closed spec fn state(&self) -> QueueState {
        self.state
    }

    /// The sender is one of the queue.
    pub open spec fn belongs(&self, queue: QueueView<T>) -> bool {
        queue.manager.has(self.token())
    }

    /// The first sender of a queue.
    pub(crate) fn first(token: usize) -> (res: Sender<D, T>)
        ensures
            res.token() == token,
            res.state() == QueueState::Single,
    {
        Sender { token, state: QueueState::Single, mk: PhantomData }
    }

    /// Tries to send a value. If there is no room, or no stream, hands the value back.
    pub fn try_send(&mut self, queue: &mut MultiQueue<D, T>, val: T) -> (res: Result<(), TrySendError<T>>)
        requires
            old(queue).wf(),
            old(self).belongs(old(queue)@),
        ensures
            final(queue).wf(),
            old(queue)@.sends(old(self).token(), val, res, final(queue)@),
            final(self).token() == old(self).token(),
            final(self).belongs(final(queue)@),
            final(self).state() == old(self).state().after_send(old(queue)@),
    {
        let disconnected: bool = self.handle_signals(queue);
        if disconnected {
            return Err(TrySendError::Disconnected(val));
        }
        let res = match self.state {
            QueueState::Single => queue.try_send_single(val),
            QueueState::Multi => {
                if queue.writers() == 1 {
                    self.state = QueueState::Single;
                    queue.try_send_single(val)
                } else {
                    queue.try_send_multi(val)
                }
            },
        };
        if res.is_ok() && queue.needs_notify() {
            queue.set_wake();
        }
        res
    }

    /// Takes the sender off the queue.
    pub fn unsubscribe(self, queue: &mut MultiQueue<D, T>)
        requires
            old(queue).wf(),
            self.belongs(old(queue)@),
        ensures
            final(queue).wf(),
            final(queue)@ == old(queue)@.without_writer(self.token()),
    {
        queue.remove_writer(self.token);
    }

    /// One more sender for the queue. From now on both know that they are not alone.
    pub fn clone(&mut self, queue: &mut MultiQueue<D, T>) -> (res: Sender<D, T>)
        requires
            old(queue).wf(),
        ensures
            final(queue).wf(),
            !old(queue)@.manager.has(res.token()),
            final(queue)@ == old(queue)@.with_writer(res.token()),
            res.belongs(final(queue)@),
            res.state() == QueueState::Multi,
            final(self).token() == old(self).token(),
            final(self).state() == QueueState::Multi,
            old(self).belongs(old(queue)@) ==> final(self).belongs(final(queue)@),
    {
        self.state = QueueState::Multi;
        let token: usize = queue.add_writer();
        proof {
            crate::lists::lemma_push_contains(old(queue)@.manager.tokens, token, token);
            crate::lists::lemma_push_contains(old(queue)@.manager.tokens, token, self.token);
        }
        Sender { token, state: QueueState::Multi, mk: PhantomData }
    }

    /// Does what the flags of the queue ask for, and says whether no stream is left.
    fn handle_signals(&self, queue: &mut MultiQueue<D, T>) -> (res: bool)
        requires
            old(queue).wf(),
            self.belongs(old(queue)@),
        ensures
            final(queue).wf(),
            res == old(queue)@.is_deserted(),
            final(queue)@ == old(queue)@.attended(self.token()),
    {
        queue.attend(self.token)
    }
}

/// A sender learns that it is alone when it sends and is the only one, and forgets nothing else: while
/// there are others, or nobody to send to, it knows what it knew.
pub proof fn lemma_learns<T>(state: QueueState, queue: QueueView<T>, pos: usize)
    ensures
        queue.positions.dom().contains(pos) && queue.writers == 1 ==> state.after_send(queue)
            == QueueState::Single,
        queue.writers != 1 ==> state.after_send(queue) == state,
        state == QueueState::Single ==> state.after_send(queue) == QueueState::Single,
{
}

/// Who is a sender of a queue: one whose token is registered.
pub proof fn lemma_belongs<D: DoDrop<T>, T>(sender: Sender<D, T>, queue: QueueView<T>)
    ensures
        sender.belongs(queue) <==> queue.manager.noted.dom().contains(sender.token()),
{
}

} // verus!
