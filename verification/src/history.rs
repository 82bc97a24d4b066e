//! What a queue answers, told from what was asked of it before.
//!
//! A history lists what senders and receivers did and what they were told. How many senders there
//! are, how many receivers a stream has, where it stands and what was sent can all be read off the
//! history, without any knowledge of the queue. The laws here say that every answer is the one that
//! the history calls for.
use vstd::prelude::*;

use crate::errors::{RecvError, TryRecvError, TrySendError};
use crate::futures_queue::FuturesView;
use crate::futures_wait::SendStep;
use crate::model::QueueView;
use crate::multiqueue::{DoDrop, MultiQueue};
use crate::read_cursor::ReaderState;
use crate::wait::{Blocking, WaitOn};

verus! {

/// What a receiver that asks for the next value of its stream is told.
pub enum Told<T> {
    /// The value is there. It is received, or looked at in its place, and the stream moves on.
    Value(T),
    /// The value is not there yet.
    Empty,
    /// The value is not there, and no sender is left.
    Over,
    /// The value is not there yet. It has this count, and comes at this slot.
    Wait(int, int),
}

/// What was done with a queue, and what came of it.
pub enum Deed<T> {
    /// A sender tried to send a value. If it was refused, this is why.
    Send(T, Option<TrySendError<T>>),
    /// A sender tried to claim a place. If it got one, this is which.
    Claim(Option<nat>),
    /// A sender filled a place that it had claimed.
    Publish(nat, T),
    /// A receiver of a stream asked for the next value, and would wait for it or not.
    Ask(usize, bool, Told<T>),
    /// A receiver of the first stream added the second one.
    AddStream(usize, usize),
    /// A receiver of a stream was cloned.
    AddReceiver(usize),
    /// A receiver of a stream left, and was told whether it was the last one.
    RemoveReceiver(usize, bool),
    /// A sender was cloned.
    AddSender,
    /// A sender left.
    RemoveSender,
    /// Something else was done.
    Other,
}

/// The streams other than `pos` have the receivers that they had, and none takes itself to have one
/// that has more.
pub open spec fn others_same<T>(before: QueueView<T>, pos: Option<usize>, after: QueueView<T>) -> bool {
    forall|p: usize|
        before.positions.dom().contains(p) && pos != Some(p) ==> {
            let now = #[trigger] after.cursor.streams[p];
            let was = before.cursor.streams[p];
            &&& now.consumers == was.consumers
            &&& now.state == ReaderState::Single ==> was.state == ReaderState::Single || was.consumers == 1
        }
}

/// No stream changed.
pub open spec fn streams_same<T>(before: QueueView<T>, after: QueueView<T>) -> bool {
    &&& after.positions == before.positions
    &&& others_same(before, None, after)
}

/// The stream has as many places before it as the queue has.
pub open spec fn no_room_for<T>(queue: QueueView<T>, pos: usize) -> bool {
    &&& queue.positions.dom().contains(pos)
    &&& queue.log.len() - queue.positions[pos] == queue.capacity
}

/// A queue does `deed` and goes from `before` to `after`.
pub open spec fn did<T>(before: QueueView<T>, deed: Deed<T>, after: QueueView<T>) -> bool {
    &&& after.capacity == before.capacity
    &&& match deed {
        Deed::Send(val, refused) => {
            &&& refused == if forall|pos: usize| !before.positions.dom().contains(pos) {
                Some(TrySendError::Disconnected(val))
            } else if exists|pos: usize| no_room_for(before, pos) {
                Some(TrySendError::Full(val))
            } else {
                None
            }
            &&& after.log == if refused is None {
                before.log.push(Some(val))
            } else {
                before.log
            }
            &&& streams_same(before, after)
            &&& after.writers == before.writers
        },
        Deed::Claim(place) => {
            &&& place == if exists|pos: usize| no_room_for(before, pos) {
                None
            } else {
                Some(before.log.len())
            }
            &&& after.log == if place is None {
                before.log
            } else {
                before.log.push(None)
            }
            &&& streams_same(before, after)
            &&& after.writers == before.writers
        },
        Deed::Publish(place, val) => {
            &&& place < before.log.len()
            &&& after.log == before.log.update(place as int, Some(val))
            &&& streams_same(before, after)
            &&& after.writers == before.writers
        },
        Deed::Ask(pos, waits, told) => {
            let place = before.positions[pos];
            &&& before.positions.dom().contains(pos)
            &&& if place < before.log.len() && before.log[place as int] is Some {
                &&& told == Told::Value(before.log[place as int]->0)
                &&& after.positions == before.positions.insert(pos, place + 1)
            } else {
                &&& told == if before.writers == 0 {
                    Told::<T>::Over
                } else if waits {
                    Told::Wait(
                        place as int % (crate::countedindex::MASK_IND as int),
                        place as int % before.capacity as int,
                    )
                } else {
                    Told::Empty
                }
                &&& after.positions == before.positions
            }
            &&& after.log == before.log
            &&& others_same(before, None, after)
            &&& after.writers == before.writers
        },
        Deed::AddStream(from, pos) => {
            &&& before.positions.dom().contains(from)
            &&& !before.positions.dom().contains(pos)
            &&& after.positions == before.positions.insert(pos, before.positions[from])
            &&& after.cursor.streams[pos].consumers == 1
            &&& others_same(before, None, after)
            &&& after.log == before.log
            &&& after.writers == before.writers
        },
        Deed::AddReceiver(pos) => {
            &&& before.positions.dom().contains(pos)
            &&& after.positions == before.positions
            &&& before.cursor.streams[pos].consumers < usize::MAX ==> after.cursor.streams[pos].consumers
                == before.cursor.streams[pos].consumers + 1
            &&& after.cursor.streams[pos].state == if before.cursor.streams[pos].consumers == 1 {
                ReaderState::Multi
            } else {
                before.cursor.streams[pos].state
            }
            &&& others_same(before, Some(pos), after)
            &&& after.log == before.log
            &&& after.writers == before.writers
        },
        Deed::RemoveReceiver(pos, last) => {
            let count = before.cursor.streams[pos].consumers;
            &&& before.positions.dom().contains(pos)
            &&& last == (count == 1)
            &&& after.positions == if count == 1 {
                before.positions.remove(pos)
            } else {
                before.positions
            }
            &&& count > 1 ==> after.cursor.streams[pos].consumers == count - 1
            &&& count > 1 ==> after.cursor.streams[pos].state == before.cursor.streams[pos].state
            &&& others_same(before, Some(pos), after)
            &&& after.log == before.log
            &&& after.writers == before.writers
        },
        Deed::AddSender => {
            &&& before.writers < usize::MAX ==> after.writers == before.writers + 1
            &&& streams_same(before, after)
            &&& after.log == before.log
        },
        Deed::RemoveSender => {
            &&& before.writers > 0 ==> after.writers == before.writers - 1
            &&& streams_same(before, after)
            &&& after.log == before.log
        },
        Deed::Other => {
            &&& streams_same(before, after)
            &&& after.log == before.log
            &&& after.writers == before.writers
        },
    }
}

/// The places that were claimed, with what was put there.
pub open spec fn log_of<T>(deeds: Seq<Deed<T>>) -> Seq<Option<T>>
    decreases deeds.len(),
{
    if deeds.len() == 0 {
        Seq::empty()
    } else {
        let log = log_of(deeds.drop_last());
        match deeds.last() {
            Deed::Send(val, None) => log.push(Some(val)),
            Deed::Claim(Some(_)) => log.push(None),
            Deed::Publish(place, val) => log.update(place as int, Some(val)),
            _ => log,
        }
    }
}

/// How many senders there are, when there was one at first.
pub open spec fn senders_of<T>(deeds: Seq<Deed<T>>) -> int
    decreases deeds.len(),
{
    if deeds.len() == 0 {
        1
    } else {
        senders_of(deeds.drop_last()) + match deeds.last() {
            Deed::AddSender => 1,
            Deed::RemoveSender => -1,
            _ => 0int,
        }
    }
}

/// How many receivers the stream at `pos` has, when the one at `first` had one at first.
pub open spec fn receivers_of<T>(first: usize, deeds: Seq<Deed<T>>, pos: usize) -> int
    decreases deeds.len(),
{
    if deeds.len() == 0 {
        if pos == first {
            1
        } else {
            0
        }
    } else {
        receivers_of(first, deeds.drop_last(), pos) + match deeds.last() {
            Deed::AddStream(_, p) => if p == pos {
                1
            } else {
                0int
            },
            Deed::AddReceiver(p) => if p == pos {
                1
            } else {
                0int
            },
            Deed::RemoveReceiver(p, _) => if p == pos {
                -1
            } else {
                0int
            },
            _ => 0int,
        }
    }
}

/// Which place the stream at `pos` receives from next: one after those from which it received, from
/// where it was added.
pub open spec fn place_of<T>(deeds: Seq<Deed<T>>, pos: usize) -> nat
    decreases deeds.len(),
{
    if deeds.len() == 0 {
        0
    } else {
        let front = deeds.drop_last();
        match deeds.last() {
            Deed::Ask(p, _, Told::Value(_)) => if p == pos {
                place_of(front, pos) + 1
            } else {
                place_of(front, pos)
            },
            Deed::AddStream(from, p) => if p == pos {
                place_of(front, from)
            } else {
                place_of(front, pos)
            },
            _ => place_of(front, pos),
        }
    }
}

/// A queue with one stream, at `first`, with one receiver, and with one sender, does `deeds` one
/// after the other, and goes from each of the states to the next. There are never fewer than no
/// senders, and no more senders or receivers of a stream than can be counted.
pub open spec fn is_history<T>(first: usize, states: Seq<QueueView<T>>, deeds: Seq<Deed<T>>) -> bool {
    &&& states.len() == deeds.len() + 1
    &&& states[0].log.len() == 0
    &&& states[0].positions == Map::<usize, nat>::empty().insert(first, 0)
    &&& states[0].cursor.streams[first].consumers == 1
    &&& states[0].writers == 1
    &&& forall|i: int| 0 <= i < deeds.len() ==> did(states[i], #[trigger] deeds[i], states[i + 1])
    &&& forall|i: int| 0 <= i <= deeds.len() ==> 0 <= #[trigger] senders_of(deeds.take(i)) <= usize::MAX
    &&& forall|i: int, pos: usize|
        0 <= i <= deeds.len() ==> #[trigger] receivers_of(first, deeds.take(i), pos) <= usize::MAX
}

/// A queue is what its history says: so many senders, so many receivers of each stream, which stands
/// there, and these values. A stream is there as long as it has receivers, and takes itself to have
/// one only when it does.
pub proof fn lemma_history<T>(first: usize, states: Seq<QueueView<T>>, deeds: Seq<Deed<T>>, n: int)
    requires
        is_history(first, states, deeds),
        0 <= n <= deeds.len(),
    ensures
        ({
            let past = deeds.take(n);
            let now = states[n];
            &&& now.capacity == states[0].capacity
            &&& now.log == log_of(past)
            &&& now.writers == senders_of(past)
            &&& forall|pos: usize| #[trigger]
                now.positions.dom().contains(pos) <==> receivers_of(first, past, pos) > 0
            &&& forall|pos: usize| #[trigger]
                now.positions.dom().contains(pos) ==> {
                    &&& now.cursor.streams[pos].consumers == receivers_of(first, past, pos)
                    &&& now.positions[pos] == place_of(past, pos)
                    &&& now.cursor.streams[pos].state == ReaderState::Single ==> receivers_of(first, past, pos)
                        == 1
                }
            &&& forall|pos: usize| 0 <= #[trigger] receivers_of(first, past, pos)
        }),
    decreases n,
{
    let past = deeds.take(n);
    assert(senders_of(deeds.take(n)) <= usize::MAX);
    if n == 0 {
        assert(past =~= Seq::<Deed<T>>::empty());
        assert(states[0].log =~= Seq::<Option<T>>::empty());
    } else {
        lemma_history(first, states, deeds, n - 1);
        let front = deeds.take(n - 1);
        let before = states[n - 1];
        let after = states[n];
        let deed = deeds[n - 1];
        assert(past.drop_last() =~= front);
        assert(past.last() == deed);
        assert(did(before, deed, after));
        assert(0 <= senders_of(past) <= usize::MAX);
        assert forall|pos: usize| receivers_of(first, past, pos) <= usize::MAX by {}
        assert forall|pos: usize| 0 <= #[trigger] receivers_of(first, past, pos) by {
            assert(0 <= receivers_of(first, front, pos));
            assert(before.positions.dom().contains(pos) <==> receivers_of(first, front, pos) > 0);
        }
        assert forall|pos: usize| #[trigger]
            after.positions.dom().contains(pos) <==> receivers_of(first, past, pos) > 0 by {
            assert(0 <= receivers_of(first, front, pos));
            assert(before.positions.dom().contains(pos) <==> receivers_of(first, front, pos) > 0);
        }
        assert forall|pos: usize| #[trigger] after.positions.dom().contains(pos) implies {
            &&& after.cursor.streams[pos].consumers == receivers_of(first, past, pos)
            &&& after.positions[pos] == place_of(past, pos)
            &&& after.cursor.streams[pos].state == ReaderState::Single ==> receivers_of(first, past, pos) == 1
        } by {
            assert(0 <= receivers_of(first, front, pos));
            assert(receivers_of(first, past, pos) <= usize::MAX);
            assert(before.positions.dom().contains(pos) <==> receivers_of(first, front, pos) > 0);
            if let Deed::AddStream(from, _) = deed {
                assert(before.positions.dom().contains(from));
            }
        }
    }
}

/// By its history, a stream has as many places before it as a queue of `capacity` places has.
pub open spec fn blocks<T>(first: usize, past: Seq<Deed<T>>, capacity: usize, pos: usize) -> bool {
    &&& receivers_of(first, past, pos) > 0
    &&& log_of(past).len() - place_of(past, pos) == capacity
}

/// Every answer is the one that the history before it calls for. A value is refused with
/// `Disconnected` exactly when no stream has a receiver, and else with `Full` exactly when a stream
/// has as many places before it as the queue has. A receiver gets the value at its stream's place
/// exactly when that place is filled. It is told that it is over exactly when the place is not filled
/// and every sender has left; else it waits for just that place, or is told that the place is empty.
/// A receiver that leaves is told that it is the last one exactly when there is no other.
pub proof fn lemma_answers<T>(first: usize, states: Seq<QueueView<T>>, deeds: Seq<Deed<T>>, i: int)
    requires
        is_history(first, states, deeds),
        0 <= i < deeds.len(),
    ensures
        ({
            let past = deeds.take(i);
            let capacity = states[0].capacity;
            match deeds[i] {
                Deed::Send(val, refused) => refused == if forall|pos: usize|
                    receivers_of(first, past, pos) == 0 {
                    Some(TrySendError::Disconnected(val))
                } else if exists|pos: usize| blocks(first, past, capacity, pos) {
                    Some(TrySendError::Full(val))
                } else {
                    None
                },
                Deed::Claim(place) => place == if exists|pos: usize| blocks(first, past, capacity, pos) {
                    None
                } else {
                    Some(log_of(past).len())
                },
                Deed::Ask(pos, waits, told) => {
                    let place = place_of(past, pos);
                    &&& receivers_of(first, past, pos) > 0
                    &&& told == if place < log_of(past).len() && log_of(past)[place as int] is Some {
                        Told::Value(log_of(past)[place as int]->0)
                    } else if senders_of(past) == 0 {
                        Told::<T>::Over
                    } else if waits {
                        Told::Wait(
                            place as int % (crate::countedindex::MASK_IND as int),
                            place as int % capacity as int,
                        )
                    } else {
                        Told::Empty
                    }
                },
                Deed::RemoveReceiver(pos, last) => {
                    &&& receivers_of(first, past, pos) > 0
                    &&& last <==> receivers_of(first, deeds.take(i + 1), pos) == 0
                },
                _ => true,
            }
        }),
{
    let past = deeds.take(i);
    let now = states[i];
    let capacity = states[0].capacity;
    lemma_history(first, states, deeds, i);
    assert(did(now, deeds[i], states[i + 1]));
    assert(deeds.take(i + 1).drop_last() =~= past);
    assert(deeds.take(i + 1).last() == deeds[i]);
    assert forall|pos: usize| #[trigger] no_room_for(now, pos) == blocks(first, past, capacity, pos) by {
        assert(now.positions.dom().contains(pos) <==> receivers_of(first, past, pos) > 0);
    }
    assert((exists|pos: usize| no_room_for(now, pos)) == exists|pos: usize|
        blocks(first, past, capacity, pos)) by {
        if exists|pos: usize| blocks(first, past, capacity, pos) {
            let pos = choose|pos: usize| blocks(first, past, capacity, pos);
            assert(no_room_for(now, pos));
        }
        if exists|pos: usize| no_room_for(now, pos) {
            let pos = choose|pos: usize| no_room_for(now, pos);
            assert(blocks(first, past, capacity, pos));
        }
    }
    assert((forall|pos: usize| !now.positions.dom().contains(pos)) == forall|pos: usize|
        receivers_of(first, past, pos) == 0) by {
        if forall|pos: usize| !now.positions.dom().contains(pos) {
            assert forall|pos: usize| receivers_of(first, past, pos) == 0 by {
                assert(0 <= receivers_of(first, past, pos));
                assert(!now.positions.dom().contains(pos));
            }
        }
        if forall|pos: usize| receivers_of(first, past, pos) == 0 {
            assert forall|pos: usize| !now.positions.dom().contains(pos) by {
                assert(receivers_of(first, past, pos) == 0);
            }
        }
    }
    match deeds[i] {
        Deed::Ask(pos, _, _) => {
            assert(now.positions.dom().contains(pos));
        },
        Deed::RemoveReceiver(pos, _) => {
            assert(now.positions.dom().contains(pos));
        },
        _ => {},
    }
}

/// A stream goes with the last of its receivers, and not before, however many there were: while it
/// has receivers it is there, and when as many have left as there were, it is gone. When every stream
/// is gone, whatever is sent is refused with `Disconnected`.
pub proof fn lemma_last_receiver<T>(first: usize, states: Seq<QueueView<T>>, deeds: Seq<Deed<T>>, i: int, pos: usize)
    requires
        is_history(first, states, deeds),
        0 <= i < deeds.len(),
    ensures
        states[i].positions.dom().contains(pos) <==> receivers_of(first, deeds.take(i), pos) > 0,
        (forall|p: usize| receivers_of(first, deeds.take(i), p) == 0) ==> (deeds[i] matches Deed::Send(
            val,
            refused,
        ) ==> refused == Some(TrySendError::Disconnected(val))),
        receivers_of(first, deeds.take(i), pos) > 0 ==> (deeds[i] matches Deed::Send(_, refused) ==> !(refused
            matches Some(TrySendError::Disconnected(_)))),
{
    lemma_history(first, states, deeds, i);
    lemma_answers(first, states, deeds, i);
}

/// What a sender does to a queue, and what it is told.
pub proof fn lemma_send_did<T>(
    before: QueueView<T>,
    token: usize,
    val: T,
    res: Result<(), TrySendError<T>>,
    after: QueueView<T>,
)
    requires
        before.sends(token, val, res, after),
    ensures
        did(
            before,
            Deed::Send(
                val,
                match res {
                    Ok(_) => None,
                    Err(e) => Some(e),
                },
            ),
            after,
        ),
        after.needs_notify == before.needs_notify,
        after.wake == (before.wake || res is Ok && before.needs_notify),
        after.manager == before.attended(token).manager,
        after.cursor == before.cursor,
{
    lemma_bounds(before);
}

/// What a sending task does to a queue, and what it is told.
pub proof fn lemma_start_send_did<T>(
    before: QueueView<T>,
    token: usize,
    val: T,
    step: SendStep<T>,
    after: QueueView<T>,
)
    requires
        before.sends(token, val, step.outcome(), after),
    ensures
        did(
            before,
            Deed::Send(
                val,
                match step {
                    SendStep::Ready => None,
                    SendStep::NotReady(back) => Some(TrySendError::Full(back)),
                    SendStep::Again(_, back) => Some(TrySendError::Full(back)),
                    SendStep::Failed(err) => Some(TrySendError::Disconnected(err.0)),
                },
            ),
            after,
        ),
{
    lemma_bounds(before);
}

/// When nobody is there to send to, and when there is no room.
proof fn lemma_bounds<T>(queue: QueueView<T>)
    ensures
        queue.is_deserted() <==> forall|pos: usize| !queue.positions.dom().contains(pos),
        queue.is_full() <==> exists|pos: usize| no_room_for(queue, pos),
{
    if forall|pos: usize| !queue.positions.dom().contains(pos) {
        assert(queue.positions.dom() =~= Set::<usize>::empty());
    }
    if queue.is_full() {
        let pos = choose|pos: usize| #[trigger]
            queue.is_live(pos) && queue.backlog(pos) == queue.capacity;
        assert(no_room_for(queue, pos));
    }
    if exists|pos: usize| no_room_for(queue, pos) {
        let pos = choose|pos: usize| no_room_for(queue, pos);
        assert(queue.is_live(pos) && queue.backlog(pos) == queue.capacity);
    }
}

/// What a sender does to a queue in steps: it finds room exactly when every stream has some, gets the
/// place at the end of the log, and fills just that place.
pub proof fn lemma_steps_did<T>(before: QueueView<T>, place: nat, val: T)
    ensures
        before.is_full() <==> exists|pos: usize| no_room_for(before, pos),
        before.is_full() ==> did(before, Deed::Claim(None), before),
        !before.is_full() ==> did(before, Deed::Claim(Some(before.log.len())), before.claimed()),
        before.is_open(place) <==> place < before.log.len() && before.log[place as int] is None,
        before.is_open(place) ==> did(before, Deed::Publish(place, val), before.published(place, val)),
        !before.is_full() && !before.is_deserted() ==> did(
            before,
            Deed::Send(val, None),
            before.pushed(val),
        ),
{
    lemma_bounds(before);
}

/// What a receiver does to a queue, and what it is told.
pub proof fn lemma_receive_did<D: DoDrop<T>, T>(
    before: QueueView<T>,
    token: usize,
    pos: usize,
    res: Result<T, TryRecvError>,
    after: QueueView<T>,
)
    requires
        before.positions.dom().contains(pos),
        before.attended(token).receives::<D>(pos, res, after),
    ensures
        ({
            let stored = before.log[before.positions[pos] as int]->0;
            &&& did(
                before,
                Deed::Ask(
                    pos,
                    false,
                    match res {
                        Ok(_) => Told::Value(stored),
                        Err(TryRecvError::Empty) => Told::Empty,
                        Err(TryRecvError::Disconnected) => Told::Over,
                    },
                ),
                after,
            )
            &&& res matches Ok(val) ==> D::delivers(stored, val)
        }),
        after.wake == before.wake,
        after.needs_notify == before.needs_notify,
        after.manager == before.attended(token).manager,
{
}

/// What a receiver that waits does to a queue, and what it is told, at first or after a wait.
pub proof fn lemma_await_did<D: DoDrop<T>, T>(
    before: QueueView<T>,
    seen: QueueView<T>,
    token: usize,
    pos: usize,
    res: Blocking<Result<T, RecvError>>,
    after: QueueView<T>,
)
    requires
        before.wf(),
        before.positions.dom().contains(pos),
        seen == before || seen == before.attended(token),
        seen.awaits::<D>(pos, res, after),
    ensures
        ({
            let stored = before.log[before.positions[pos] as int]->0;
            &&& did(
                before,
                Deed::Ask(
                    pos,
                    true,
                    match res {
                        Blocking::Done(Ok(_)) => Told::Value(stored),
                        Blocking::Done(Err(_)) => Told::Over,
                        Blocking::Wait(on) => Told::Wait(on.seq as int, on.slot as int),
                    },
                ),
                after,
            )
            &&& res matches Blocking::Done(Ok(val)) ==> D::delivers(stored, val)
        }),
        after.wake == before.wake,
        after.needs_notify == before.needs_notify,
        after.manager == seen.manager,
{
    lemma_named(before, pos);
}

/// The counts and slots by which places are named fit.
proof fn lemma_named<T>(queue: QueueView<T>, pos: usize)
    requires
        queue.wf(),
        queue.positions.dom().contains(pos),
    ensures
        ({
            let place = queue.positions[pos] as int;
            let lap = crate::countedindex::MASK_IND as int;
            &&& crate::countedindex::untagged(place) == place % lap
            &&& 0 <= place % (queue.capacity as int) < queue.capacity
        }),
{
    assert(queue.stream_wf(pos));
    crate::countedindex::lemma_power_basics(queue.capacity as int);
    crate::countedindex::lemma_lap();
    vstd::arithmetic::div_mod::lemma_mod_bound(queue.positions[pos] as int, queue.capacity as int);
    vstd::arithmetic::div_mod::lemma_mod_bound(
        queue.positions[pos] as int,
        crate::countedindex::MASK_IND as int,
    );
}

/// What an iterator that waits does to a queue, and what it is told; so does a task that polls.
pub proof fn lemma_iterate_did<D: DoDrop<T>, T>(
    before: QueueView<T>,
    seen: QueueView<T>,
    token: usize,
    pos: usize,
    res: Blocking<Option<T>>,
    after: QueueView<T>,
)
    requires
        before.wf(),
        before.positions.dom().contains(pos),
        seen == before || seen == before.attended(token),
        crate::iterators::yields::<D, T>(seen, pos, res, after),
    ensures
        ({
            let stored = before.log[before.positions[pos] as int]->0;
            &&& did(
                before,
                Deed::Ask(
                    pos,
                    true,
                    match res {
                        Blocking::Done(Some(_)) => Told::Value(stored),
                        Blocking::Done(None) => Told::Over,
                        Blocking::Wait(on) => Told::Wait(on.seq as int, on.slot as int),
                    },
                ),
                after,
            )
            &&& res matches Blocking::Done(Some(val)) ==> D::delivers(stored, val)
        }),
        after.wake == before.wake,
        after.needs_notify == before.needs_notify,
        after.manager == seen.manager,
{
    lemma_named(before, pos);
}

/// What an iterator that does not wait does to a queue. It ends whether or not senders are left.
pub proof fn lemma_iterate_now_did<D: DoDrop<T>, T>(
    before: QueueView<T>,
    token: usize,
    pos: usize,
    res: Option<T>,
    after: QueueView<T>,
)
    requires
        before.positions.dom().contains(pos),
        crate::iterators::yields_now::<D, T>(before.attended(token), pos, res, after),
    ensures
        ({
            let stored = before.log[before.positions[pos] as int]->0;
            &&& did(
                before,
                Deed::Ask(
                    pos,
                    false,
                    match res {
                        Some(_) => Told::Value(stored),
                        None => if before.writers == 0 {
                            Told::Over
                        } else {
                            Told::Empty
                        },
                    },
                ),
                after,
            )
            &&& res matches Some(val) ==> D::delivers(stored, val)
        }),
        after.wake == before.wake,
        after.needs_notify == before.needs_notify,
        after.manager == before.attended(token).manager,
{
}

/// What a receiver does to a queue that looks at values in their place, and what it is told. The
/// function is applied to the value at the stream's place, and is handed back if there is none.
pub proof fn lemma_view_did<T, R, F: FnOnce(&T) -> R>(
    before: QueueView<T>,
    token: usize,
    pos: usize,
    op: F,
    res: Result<R, (F, TryRecvError)>,
    after: QueueView<T>,
)
    requires
        before.positions.dom().contains(pos),
        before.attended(token).tries_view(pos, op, res, after),
    ensures
        ({
            let stored = before.log[before.positions[pos] as int]->0;
            &&& did(
                before,
                Deed::Ask(
                    pos,
                    false,
                    match res {
                        Ok(_) => Told::Value(stored),
                        Err((_, TryRecvError::Empty)) => Told::Empty,
                        Err((_, TryRecvError::Disconnected)) => Told::Over,
                    },
                ),
                after,
            )
            &&& res matches Ok(val) ==> op.ensures((&stored,), val)
            &&& res matches Err((back, _)) ==> back == op
        }),
        after.wake == before.wake,
        after.needs_notify == before.needs_notify,
        after.manager == before.attended(token).manager,
{
}

/// What a receiver does to a queue that looks at values in their place and waits for them, at first
/// or after a wait. It ends in an error exactly when there is nothing to look at and no sender is
/// left, however many there were.
pub proof fn lemma_await_view_did<T, R, F: FnOnce(&T) -> R>(
    before: QueueView<T>,
    seen: QueueView<T>,
    token: usize,
    pos: usize,
    op: F,
    res: Result<R, (F, Blocking<RecvError>)>,
    after: QueueView<T>,
)
    requires
        before.wf(),
        before.positions.dom().contains(pos),
        seen == before || seen == before.attended(token),
        seen.awaits_view(pos, op, res, after),
    ensures
        ({
            let stored = before.log[before.positions[pos] as int]->0;
            &&& did(
                before,
                Deed::Ask(
                    pos,
                    true,
                    match res {
                        Ok(_) => Told::Value(stored),
                        Err((_, Blocking::Done(_))) => Told::Over,
                        Err((_, Blocking::Wait(on))) => Told::Wait(on.seq as int, on.slot as int),
                    },
                ),
                after,
            )
            &&& res matches Ok(val) ==> op.ensures((&stored,), val)
            &&& res matches Err((back, _)) ==> back == op
        }),
        after.wake == before.wake,
        after.needs_notify == before.needs_notify,
        after.manager == seen.manager,
{
    lemma_named(before, pos);
}

/// What an iterator with a function does to a queue, when it waits; so does a task that polls with
/// a function of its own.
pub proof fn lemma_iterate_view_did<T, R, F: FnMut(&T) -> R>(
    before: QueueView<T>,
    seen: QueueView<T>,
    token: usize,
    pos: usize,
    op: F,
    res: Blocking<Option<R>>,
    after: QueueView<T>,
)
    requires
        before.wf(),
        before.positions.dom().contains(pos),
        seen == before || seen == before.attended(token),
        crate::iterators::yields_view(seen, pos, op, res, after),
    ensures
        ({
            let stored = before.log[before.positions[pos] as int]->0;
            &&& did(
                before,
                Deed::Ask(
                    pos,
                    true,
                    match res {
                        Blocking::Done(Some(_)) => Told::Value(stored),
                        Blocking::Done(None) => Told::Over,
                        Blocking::Wait(on) => Told::Wait(on.seq as int, on.slot as int),
                    },
                ),
                after,
            )
            &&& res matches Blocking::Done(Some(val)) ==> op.ensures((&stored,), val)
        }),
        after.wake == before.wake,
        after.needs_notify == before.needs_notify,
        after.manager == seen.manager,
{
    lemma_named(before, pos);
}

/// What an iterator with a function does to a queue, when it does not wait.
pub proof fn lemma_iterate_view_now_did<T, R, F: FnMut(&T) -> R>(
    before: QueueView<T>,
    token: usize,
    pos: usize,
    op: F,
    res: Option<R>,
    after: QueueView<T>,
)
    requires
        before.positions.dom().contains(pos),
        crate::iterators::yields_view_now(before.attended(token), pos, op, res, after),
    ensures
        ({
            let stored = before.log[before.positions[pos] as int]->0;
            &&& did(
                before,
                Deed::Ask(
                    pos,
                    false,
                    match res {
                        Some(_) => Told::Value(stored),
                        None => if before.writers == 0 {
                            Told::Over
                        } else {
                            Told::Empty
                        },
                    },
                ),
                after,
            )
            &&& res matches Some(val) ==> op.ensures((&stored,), val)
        }),
        after.wake == before.wake,
        after.needs_notify == before.needs_notify,
        after.manager == before.attended(token).manager,
{
}

/// What a receiving task with a function of its own does to a queue, at first or after a wait. It
/// gets an error exactly when there is nothing to look at and no sender is left; with nothing to look
/// at and any sender there, it waits for the stream's place. The sending tasks are called when it is
/// done.
pub proof fn lemma_held_operation_did<T, R, F: FnMut(&T) -> R>(
    before: FuturesView<T>,
    seen: QueueView<T>,
    token: usize,
    pos: usize,
    op: F,
    res: Blocking<Result<R, RecvError>>,
    after: FuturesView<T>,
)
    requires
        before.queue.wf(),
        before.queue.positions.dom().contains(pos),
        seen == before.queue || seen == before.queue.attended(token),
        crate::futures_queue::received_view(before, seen, pos, op, res, after),
    ensures
        ({
            let stored = before.queue.log[before.queue.positions[pos] as int]->0;
            &&& did(
                before.queue,
                Deed::Ask(
                    pos,
                    true,
                    match res {
                        Blocking::Done(Ok(_)) => Told::Value(stored),
                        Blocking::Done(Err(_)) => Told::Over,
                        Blocking::Wait(on) => Told::Wait(on.seq as int, on.slot as int),
                    },
                ),
                after.queue,
            )
            &&& res matches Blocking::Done(Ok(val)) ==> op.ensures((&stored,), val)
        }),
        after.prod_wake == (before.prod_wake || res is Done),
        after.wait == before.wait,
        after.prod_wait == before.prod_wait,
        after.queue.wake == before.queue.wake,
        after.queue.manager == seen.manager,
{
    lemma_named(before.queue, pos);
}

/// What those find who ask a queue itself for the next value of a stream: the place that is moved on
/// from, the function's argument, and why there is nothing, with the slot where the value comes.
pub proof fn lemma_looks_did<T, R, F: FnOnce(&T) -> R>(
    before: QueueView<T>,
    pos: usize,
    state: ReaderState,
    op: F,
    val: R,
    after: QueueView<T>,
)
    requires
        before.wf(),
        before.positions.dom().contains(pos),
    ensures
        ({
            let place = before.positions[pos];
            let filled = place < before.log.len() && before.log[place as int] is Some;
            let value = Told::Value(before.log[place as int]->0);
            &&& before.is_readable(pos) <==> filled
            &&& filled ==> before.next_value(pos) == before.log[place as int]->0
            &&& filled && (state == before.cursor.streams[pos].state || before.cursor.streams[pos].consumers == 1)
                ==> did(before, Deed::Ask(pos, false, value), before.moved(pos, state))
            &&& filled ==> did(before, Deed::Ask(pos, false, value), before.advanced(pos))
            &&& filled && before.views(pos, op, val, after) ==> did(before, Deed::Ask(pos, false, value), after)
                && op.ensures((&before.log[place as int]->0,), val)
            &&& before.why_empty(pos).1 == TryRecvError::Disconnected <==> before.writers == 0
            &&& before.writers == 0 ==> before.why_empty(pos).0 is None
            &&& before.writers != 0 ==> (before.why_empty(pos).0 matches Some(slot) && slot == place as int
                % before.capacity as int)
        }),
{
    lemma_named(before, pos);
}

/// What is done to a queue when a stream is added, a receiver cloned, or a receiver leaves. A new
/// stream has one receiver, a clone is one more, and one that leaves one less; the last one takes the
/// stream along.
pub proof fn lemma_receivers_did<T>(before: QueueView<T>, pos: usize, new: usize, token: usize)
    requires
        before.positions.dom().contains(pos),
    ensures
        !before.positions.dom().contains(new) ==> did(
            before,
            Deed::AddStream(pos, new),
            before.with_stream(pos, new).with_token(token),
        ),
        !before.positions.dom().contains(new) ==> did(
            before,
            Deed::AddStream(pos, new),
            before.with_stream(pos, new),
        ),
        did(before, Deed::AddReceiver(pos), before.with_consumer(pos).with_token(token)),
        did(before, Deed::AddReceiver(pos), before.with_consumer(pos)),
        did(
            before,
            Deed::RemoveReceiver(pos, before.cursor.streams[pos].consumers == 1),
            before.left_by(pos, token),
        ),
        before.cursor.streams[pos].consumers > 1 ==> did(
            before,
            Deed::RemoveReceiver(pos, false),
            before.without_consumer(pos),
        ),
        before.cursor.streams[pos].consumers == 1 ==> did(
            before,
            Deed::RemoveReceiver(pos, true),
            before.without_stream(pos),
        ),
        before.cursor.streams[pos].consumers == 1 ==> did(before, Deed::Other, before.single(pos)),
        before.with_stream(pos, new).wake == before.wake,
        before.with_consumer(pos).wake == before.wake,
        before.left_by(pos, token).wake == before.wake,
{
}

/// A receiver that is replaced by another one leaves the stream as it is.
pub proof fn lemma_replaced_did<T>(before: QueueView<T>, pos: usize, token: usize, new: usize)
    requires
        before.positions.dom().contains(pos),
        0 < before.cursor.streams[pos].consumers < usize::MAX,
    ensures
        did(before, Deed::Other, before.replaced(pos, token, new)),
{
    let mid = before.with_consumer(pos).with_token(new);
    lemma_receivers_did(before, pos, pos, new);
    lemma_receivers_did(mid, pos, pos, token);
    assert(before.replaced(pos, token, new).positions =~= before.positions);
}

/// What is done to a queue when a sender is cloned or leaves: a clone is one more, and one that
/// leaves one less, and then receivers are called.
pub proof fn lemma_senders_did<T>(before: QueueView<T>, token: usize)
    ensures
        did(before, Deed::AddSender, before.with_writer(token)),
        did(before, Deed::RemoveSender, before.without_writer(token)),
        before.with_writer(token).wake == before.wake,
        before.without_writer(token).wake,
{
}

/// To take note of the flags, to come or go as a subscriber, and to be called or not changes nothing
/// that senders and receivers are told.
pub proof fn lemma_notes_did<T>(before: QueueView<T>, token: usize, wake: bool)
    ensures
        did(before, Deed::Other, before.attended(token)),
        did(before, Deed::Other, before.with_token(token)),
        did(before, Deed::Other, before.without_token(token)),
        did(before, Deed::Other, (QueueView { wake, ..before })),
        before.attended(token).wake == before.wake,
{
}

/// A new queue is one with which a history begins.
pub proof fn lemma_new_begins<D: DoDrop<T>, T>(
    parts: (
        MultiQueue<D, T>,
        crate::sender::Sender<D, T>,
        crate::receiver::Receiver<D, T>,
    ),
    capacity: usize,
    needs_notify: bool,
)
    requires
        MultiQueue::<D, T>::is_new(parts, capacity, needs_notify),
        capacity <= crate::countedindex::MAX_WRAP / 2 + 1,
    ensures
        is_history::<T>(parts.2.pos(), seq![parts.0@], seq![]),
        parts.0@.capacity >= capacity,
        parts.0@.capacity == 1 || parts.0@.capacity < 2 * capacity,
        exists|k: nat| parts.0@.capacity == vstd::arithmetic::power2::pow2(k),
        parts.0@.needs_notify == needs_notify,
        !parts.0@.wake,
        parts.0@.manager.has(parts.1.token()),
        parts.0@.manager.has(parts.2.token()),
        parts.2.is_alive(),
{
    let queue = parts.0@;
    let none = Seq::<Deed<T>>::empty();
    assert(forall|i: int| 0 <= i <= none.len() ==> none.take(i) =~= none);
    assert(queue.positions =~= Map::<usize, nat>::empty().insert(parts.2.pos(), 0));
    assert(queue.cursor.streams[parts.2.pos()].consumers == 1);
    assert(seq![queue][0] == queue);
    assert forall|i: int| 0 <= i <= none.len() implies 0 <= #[trigger] senders_of(none.take(i)) <= usize::MAX by {
        assert(none.take(i) =~= none);
    }
    assert forall|i: int, pos: usize| 0 <= i <= none.len() implies #[trigger] receivers_of(
        parts.2.pos(),
        none.take(i),
        pos,
    ) <= usize::MAX by {
        assert(none.take(i) =~= none);
    }
    let size = queue.capacity as int;
    assert(crate::countedindex::is_power(size));
    let k = choose|k: nat| size == vstd::arithmetic::power2::pow2(k);
    if size != 1 && size >= 2 * capacity {
        vstd::arithmetic::power2::lemma2_to64();
        assert(k != 0);
        vstd::arithmetic::power2::lemma_pow2_unfold(k);
        crate::countedindex::lemma_power_basics(size);
        let half = vstd::arithmetic::power2::pow2((k - 1) as nat) as int;
        assert(crate::countedindex::is_power(half));
        assert(half >= capacity ==> half >= size);
    }
}

/// A wait ends exactly when there is something to stop for. Whoever is told to wait, however it asked
/// for the next value of its stream, finds, as long as the stream has not moved on, that the wait is
/// over exactly when the stream's place is filled or no sender is left.
pub proof fn lemma_wait_is_over<D: DoDrop<T>, T>(
    before: QueueView<T>,
    waits: bool,
    pos: usize,
    on: WaitOn,
    mid: QueueView<T>,
    now: &MultiQueue<D, T>,
)
    requires
        before.wf(),
        did(before, Deed::Ask(pos, waits, Told::Wait(on.seq as int, on.slot as int)), mid),
        now.wf(),
        now@.capacity == before.capacity,
        now@.positions.dom().contains(pos),
        now@.positions[pos] == before.positions[pos],
    ensures
        on.slot < now@.capacity,
        crate::wait::is_ready(on.seq, now.flag_at(on.slot as int), now@.writers) <==> {
            let place = now@.positions[pos];
            ||| place < now@.log.len() && now@.log[place as int] is Some
            ||| now@.writers == 0
        },
{
    lemma_named(before, pos);
    now.lemma_consistent();
    now.lemma_flag(pos);
    crate::laws::lemma_ready(now@, pos);
}

/// Only a stream with one receiver takes itself to have one: this stays so whatever is done with the
/// stream.
pub proof fn lemma_single_is_alone<T>(queue: QueueView<T>, pos: usize, new: usize)
    requires
        queue.positions.dom().contains(pos),
        queue.cursor.streams[pos].state == ReaderState::Single ==> queue.cursor.streams[pos].consumers == 1,
        0 < queue.cursor.streams[pos].consumers < usize::MAX,
        pos != new,
    ensures
        ({
            let added = queue.with_stream(pos, new).cursor.streams[new];
            let cloned = queue.with_consumer(pos).cursor.streams[pos];
            let fewer = queue.without_consumer(pos).cursor.streams[pos];
            let moved = queue.advanced(pos).cursor.streams[pos];
            let viewed = queue.viewed(pos).cursor.streams[pos];
            &&& added.state == ReaderState::Single && added.consumers == 1
            &&& cloned.state == ReaderState::Multi && cloned.consumers > 1
            &&& fewer.consumers > 0 && fewer.state == ReaderState::Single ==> fewer.consumers == 1
            &&& moved.state == ReaderState::Single ==> moved.consumers == 1
            &&& viewed.state == ReaderState::Single ==> viewed.consumers == 1
            &&& queue.cursor.streams[pos].consumers == 1 ==> queue.single(pos).cursor.streams[pos].state
                == ReaderState::Single
        }),
{
}

/// Who is registered with a queue. Whoever comes is, and a sender that leaves is not any more; so it
/// is with the last receiver of a stream, while one that leaves others behind stays registered. Nobody
/// else is affected, whatever is done.
pub proof fn lemma_registered<T>(queue: QueueView<T>, pos: usize, new: usize, token: usize, other: usize, val: T)
    requires
        queue.wf(),
        queue.positions.dom().contains(pos),
        other != token,
    ensures
        ({
            let come = queue.with_token(token).manager;
            let sender_comes = queue.with_writer(token).manager;
            let sender_leaves = queue.without_writer(token).manager;
            let receiver_comes = queue.with_consumer(pos).with_token(token).manager;
            let receiver_leaves = queue.left_by(pos, token).manager;
            let stream_comes = queue.with_stream(pos, new).with_token(token).manager;
            let stream_leaves = queue.without_stream(pos).manager;
            &&& come.has(token) && sender_comes.has(token) && receiver_comes.has(token) && stream_comes.has(token)
            &&& !sender_leaves.has(token)
            &&& queue.cursor.streams[pos].consumers == 1 ==> !receiver_leaves.has(token)
            &&& queue.cursor.streams[pos].consumers != 1 ==> receiver_leaves == queue.manager
            &&& come.noted[token] == queue.manager.epoch && sender_comes.noted[token] == queue.manager.epoch
            &&& receiver_comes.noted[token] == queue.manager.epoch
            &&& sender_leaves.waiting == queue.manager.waiting.push(crate::memory::Retired::Token(token))
            &&& queue.cursor.streams[pos].consumers == 1 ==> receiver_leaves.waiting.last()
                == crate::memory::Retired::Token(token)
            &&& queue.manager.has(token) ==> queue.attended(token).manager.noted[token] == queue.manager.epoch
            &&& queue.attended(token).manager.noted[other] == queue.manager.noted[other]
            &&& queue.attended(token).manager.has(other) == queue.manager.has(other)
            &&& queue.attended(token).manager.tofree == queue.manager.tofree
            &&& queue.attended(token).manager.waiting == queue.manager.waiting
            &&& come.has(other) == queue.manager.has(other)
            &&& sender_comes.has(other) == queue.manager.has(other)
            &&& sender_leaves.has(other) == queue.manager.has(other)
            &&& receiver_comes.has(other) == queue.manager.has(other)
            &&& receiver_leaves.has(other) == queue.manager.has(other)
            &&& stream_comes.has(other) == queue.manager.has(other)
            &&& stream_leaves.has(other) == queue.manager.has(other)
            &&& stream_leaves.has(token) == queue.manager.has(token)
            &&& queue.with_consumer(pos).manager == queue.manager
            &&& queue.without_consumer(pos).manager == queue.manager
            &&& queue.single(pos).manager == queue.manager
            &&& queue.pushed(val).manager == queue.manager
            &&& queue.advanced(pos).manager == queue.manager
            &&& queue.viewed(pos).manager == queue.manager
        }),
{
    queue.manager.lemma_in_step(token, crate::memory::Retired::Group(queue.cursor.group));
    let mid = queue.manager.freed(crate::memory::Retired::Group(queue.cursor.group));
    crate::memory::lemma_subscribers(queue.manager, token, other);
    crate::memory::lemma_subscribers(mid, token, other);
    mid.lemma_in_step(token, crate::memory::Retired::Pos(pos));
}

/// What is put aside when streams come and go, and what the senders are told. A stream that comes
/// retires the list of streams that there was; one that goes retires its place too. Nothing else is
/// retired, and nothing is lost. The flags say that no stream is left exactly when none is.
pub proof fn lemma_retired<T>(queue: QueueView<T>, pos: usize, new: usize)
    requires
        queue.wf(),
        queue.positions.dom().contains(pos),
        !queue.positions.dom().contains(new),
    ensures
        ({
            let list = crate::memory::Retired::Group(queue.cursor.group);
            let kept = queue.manager.tofree + queue.manager.waiting;
            let come = queue.with_stream(pos, new);
            let gone = queue.without_stream(pos);
            &&& kept.push(list) == queue.manager.released() + come.manager.tofree + come.manager.waiting
            &&& come.cursor.group == queue.cursor.group.push(new)
            &&& kept.push(list).push(crate::memory::Retired::Pos(pos)) == queue.manager.released()
                + come.manager.released() + gone.manager.tofree + gone.manager.waiting
            &&& gone.cursor.group == crate::lists::struck(queue.cursor.group, pos)
            &&& gone.manager.signal.reader <==> forall|p: usize| !gone.positions.dom().contains(p)
            &&& come.manager.signal.reader == queue.manager.signal.reader
        }),
{
    let list = crate::memory::Retired::Group(queue.cursor.group);
    let place = crate::memory::Retired::Pos(pos);
    let kept = queue.manager.tofree + queue.manager.waiting;
    let mid = queue.manager.freed(list);
    queue.manager.lemma_in_step(0, list);
    crate::memory::lemma_nothing_lost(queue.manager, list);
    crate::memory::lemma_nothing_lost(mid, place);
    assert(queue.manager.tofree + queue.manager.waiting.push(list) =~= kept.push(list));
    let end = mid.freed(place);
    assert(kept.push(list).push(place) =~= queue.manager.released() + (mid.tofree + mid.waiting.push(place)));
    assert(queue.manager.released() + (mid.released() + end.tofree + end.waiting) =~= queue.manager.released()
        + mid.released() + end.tofree + end.waiting);
    let group = queue.cursor.group;
    let rest = crate::lists::struck(group, pos);
    let gone = queue.without_stream(pos);
    crate::lists::lemma_struck(group, pos);
    assert(queue.positions.dom() == group.to_set());
    assert(group.to_set().contains(pos));
    assert forall|p: usize| gone.positions.dom().contains(p) <==> rest.contains(p) by {
        assert(rest.contains(p) <==> group.contains(p) && p != pos);
        assert(group.to_set().contains(p) <==> group.contains(p));
    }
    if rest.len() > 0 {
        assert(rest.contains(rest[0]));
        assert(gone.positions.dom().contains(rest[0]));
    }
    assert(!queue.manager.signal.reader) by {
        assert(group.contains(pos));
    }
}

/// Whatever is done with one stream leaves the others as they are.
pub proof fn lemma_others_left_alone<T>(
    queue: QueueView<T>,
    pos: usize,
    other: usize,
    state: ReaderState,
    token: usize,
    val: T,
)
    requires
        other != pos,
    ensures
        ({
            let stream = queue.cursor.streams[other];
            let there = queue.positions.dom().contains(other);
            let moved = queue.moved(pos, state);
            let gone = queue.left_by(pos, token);
            &&& moved.cursor.streams[other] == stream && moved.positions[other] == queue.positions[other]
            &&& moved.positions.dom().contains(other) == there
            &&& queue.advanced(pos).cursor.streams[other] == stream
            &&& queue.viewed(pos).cursor.streams[other] == stream
            &&& queue.with_consumer(pos).cursor.streams[other] == stream
            &&& queue.without_consumer(pos).cursor.streams[other] == stream
            &&& queue.single(pos).cursor.streams[other] == stream
            &&& gone.cursor.streams[other] == stream && gone.positions[other] == queue.positions[other]
            &&& gone.positions.dom().contains(other) == there
            &&& queue.with_stream(other, pos).cursor.streams[other] == stream
            &&& queue.with_stream(other, pos).cursor.streams[pos].count == stream.count
            &&& queue.with_stream(other, pos).cursor.streams[pos].wrap == stream.wrap
            &&& queue.pushed(val).cursor == queue.cursor
            &&& queue.claimed().cursor == queue.cursor
            &&& queue.published(0, val).cursor == queue.cursor
        }),
{
}

} // verus!
