//! What holds of a queue over any number of operations.
use vstd::prelude::*;

use crate::errors::{RecvError, TryRecvError, TrySendError};
use crate::memory::Retired;
use crate::model::QueueView;
use crate::multiqueue::DoDrop;
use crate::wait::Blocking;

verus! {

/// What an operation did to the log and to the streams.
pub enum Event<T> {
    /// A value was sent.
    Push(T),
    /// A place was claimed for a value.
    Claim,
    /// A place that was claimed was filled.
    Publish(nat, T),
    /// A stream moved on by a value that one of its consumers received or looked at.
    Receive(usize, T),
    /// A stream was added, where another stream stood.
    Join(usize, usize),
    /// A stream was removed.
    Leave(usize),
    /// Nothing of that kind.
    Quiet,
}

/// `event` leads from `before` to `after`.
pub open spec fn step<T>(before: QueueView<T>, event: Event<T>, after: QueueView<T>) -> bool {
    &&& after.capacity == before.capacity
    &&& match event {
        Event::Push(val) => {
            &&& after.log == before.log.push(Some(val))
            &&& after.positions == before.positions
        },
        Event::Claim => {
            &&& after.log == before.log.push(None)
            &&& after.positions == before.positions
        },
        Event::Publish(place, val) => {
            &&& before.is_open(place)
            &&& after.log == before.log.update(place as int, Some(val))
            &&& after.positions == before.positions
        },
        Event::Receive(pos, val) => {
            &&& before.is_live(pos)
            &&& before.is_readable(pos)
            &&& val == before.next_value(pos)
            &&& after.log == before.log
            &&& after.positions == before.positions.insert(pos, before.positions[pos] + 1)
        },
        Event::Join(from, pos) => {
            &&& before.is_live(from)
            &&& !before.is_live(pos)
            &&& after.log == before.log
            &&& after.positions == before.positions.insert(pos, before.positions[from])
        },
        Event::Leave(pos) => {
            &&& before.is_live(pos)
            &&& after.log == before.log
            &&& after.positions == before.positions.remove(pos)
        },
        Event::Quiet => {
            &&& after.log == before.log
            &&& after.positions == before.positions
        },
    }
}

/// The events lead from each of the states to the next.
pub open spec fn is_run<T>(states: Seq<QueueView<T>>, events: Seq<Event<T>>) -> bool {
    &&& states.len() == events.len() + 1
    &&& forall|i: int| 0 <= i < events.len() ==> step(states[i], #[trigger] events[i], states[i + 1])
}

/// The values that the consumers of a stream received, all together, in the order in which they
/// did.
pub open spec fn received<T>(events: Seq<Event<T>>, pos: usize) -> Seq<T>
    decreases events.len(),
{
    if events.len() == 0 {
        Seq::empty()
    } else {
        let front = received(events.drop_last(), pos);
        match events.last() {
            Event::Receive(p, val) => if p == pos {
                front.push(val)
            } else {
                front
            },
            _ => front,
        }
    }
}

/// The values that were sent, in the order in which they were.
pub open spec fn pushed<T>(events: Seq<Event<T>>) -> Seq<T>
    decreases events.len(),
{
    if events.len() == 0 {
        Seq::empty()
    } else {
        let front = pushed(events.drop_last());
        match events.last() {
            Event::Push(val) => front.push(val),
            _ => front,
        }
    }
}

/// The stream stays subscribed.
pub open spec fn stays<T>(states: Seq<QueueView<T>>, pos: usize) -> bool {
    forall|i: int| 0 <= i < states.len() ==> (#[trigger] states[i]).is_live(pos)
}

/// A part of a run from its start is a run.
proof fn lemma_front<T>(states: Seq<QueueView<T>>, events: Seq<Event<T>>)
    requires
        is_run(states, events),
        events.len() > 0,
    ensures
        is_run(states.drop_last(), events.drop_last()),
        step(states[events.len() - 1], events.last(), states.last()),
        states.drop_last().last() == states[events.len() - 1],
        states.drop_last()[0] == states[0],
{
    assert forall|i: int| 0 <= i < events.drop_last().len() implies step(
        states.drop_last()[i],
        #[trigger] events.drop_last()[i],
        states.drop_last()[i + 1],
    ) by {
        assert(step(states[i], events[i], states[i + 1]));
    }
    assert(events.last() == events[events.len() - 1]);
}

/// What was sent stays as it is: the log only grows, and a place that was filled keeps its value.
pub proof fn lemma_log_grows<T>(states: Seq<QueueView<T>>, events: Seq<Event<T>>)
    requires
        is_run(states, events),
    ensures
        states.last().capacity == states[0].capacity,
        states.last().sent() >= states[0].sent(),
        forall|n: int|
            0 <= n < states[0].sent() && (#[trigger] states[0].log[n]) is Some ==> states.last().log[n]
                == states[0].log[n],
    decreases events.len(),
{
    if events.len() > 0 {
        lemma_front(states, events);
        lemma_log_grows(states.drop_last(), events.drop_last());
    }
}

/// Every stream receives every value once, in the order of the log: what its consumers received
/// in the course of a run, all together, is the part of the log that the stream passed.
pub proof fn lemma_fifo<T>(states: Seq<QueueView<T>>, events: Seq<Event<T>>, pos: usize)
    requires
        is_run(states, events),
        stays(states, pos),
        states[0].wf(),
    ensures
        ({
            let from = states[0].positions[pos];
            let to = states.last().positions[pos];
            let vals = received(events, pos);
            &&& from <= to <= states.last().sent()
            &&& vals.len() == to - from
            &&& forall|k: int|
                0 <= k < vals.len() ==> states.last().log[from + k] == Some(#[trigger] vals[k])
        }),
    decreases events.len(),
{
    if events.len() > 0 {
        let prior = states.drop_last();
        let front = events.drop_last();
        lemma_front(states, events);
        assert(stays(prior, pos)) by {
            assert forall|i: int| 0 <= i < prior.len() implies (#[trigger] prior[i]).is_live(pos) by {
                assert(states[i].is_live(pos));
            }
        }
        assert(states.last().is_live(pos)) by {
            assert(states[events.len() as int].is_live(pos));
        }
        lemma_fifo(prior, front, pos);
        let from = states[0].positions[pos];
        let old_vals = received(front, pos);
        let vals = received(events, pos);
        assert forall|k: int| 0 <= k < vals.len() implies states.last().log[from + k] == Some(
            #[trigger] vals[k],
        ) by {
            if k < old_vals.len() {
                assert(vals[k] == old_vals[k]);
                assert(prior.last().log[from + k] == Some(old_vals[k]));
            }
        }
    } else {
        assert(states[0].is_live(pos));
        assert(states[0].stream_wf(pos));
    }
}

/// Streams that pass the same part of the log receive the same values.
pub proof fn lemma_broadcast<T>(states: Seq<QueueView<T>>, events: Seq<Event<T>>, pos: usize, other: usize)
    requires
        is_run(states, events),
        stays(states, pos),
        stays(states, other),
        states[0].wf(),
        states[0].positions[pos] == states[0].positions[other],
        states.last().positions[pos] == states.last().positions[other],
    ensures
        received(events, pos) == received(events, other),
{
    lemma_fifo(states, events, pos);
    lemma_fifo(states, events, other);
    let a = received(events, pos);
    let b = received(events, other);
    let from = states[0].positions[pos];
    assert forall|k: int| 0 <= k < a.len() implies a[k] == b[k] by {
        assert(states.last().log[from + k] == Some(a[k]));
        assert(states.last().log[from + k] == Some(b[k]));
    }
    assert(a =~= b);
}

/// The log that events make of `log`: each value that is sent and each claim adds a place at the
/// end, and a place that was claimed gets what is published there.
pub open spec fn written<T>(log: Seq<Option<T>>, events: Seq<Event<T>>) -> Seq<Option<T>>
    decreases events.len(),
{
    if events.len() == 0 {
        log
    } else {
        let front = written(log, events.drop_last());
        match events.last() {
            Event::Push(val) => front.push(Some(val)),
            Event::Claim => front.push(None),
            Event::Publish(place, val) => front.update(place as int, Some(val)),
            _ => front,
        }
    }
}

/// Values are received in the order of the claims, however late their places were filled: the log
/// has the places in the order in which they were claimed, each with what was published there, and
/// what a stream has received is the part of that log from where it stood to where it stands.
pub proof fn lemma_in_order<T>(states: Seq<QueueView<T>>, events: Seq<Event<T>>, pos: usize)
    requires
        is_run(states, events),
        stays(states, pos),
        states[0].wf(),
    ensures
        ({
            let log = written(states[0].log, events);
            let from = states[0].positions[pos];
            let to = states.last().positions[pos];
            let vals = received(events, pos);
            &&& states.last().log == log
            &&& from <= to <= log.len()
            &&& vals.len() == to - from
            &&& forall|k: int| 0 <= k < vals.len() ==> log[from + k] == Some(#[trigger] vals[k])
        }),
{
    lemma_fifo(states, events, pos);
    lemma_written(states, events);
}

/// The events of a run make its last log of its first one.
pub proof fn lemma_written<T>(states: Seq<QueueView<T>>, events: Seq<Event<T>>)
    requires
        is_run(states, events),
    ensures
        states.last().log == written(states[0].log, events),
    decreases events.len(),
{
    if events.len() > 0 {
        lemma_front(states, events);
        lemma_written(states.drop_last(), events.drop_last());
    }
}

/// The event adds a place to the log.
pub open spec fn is_claim<T>(event: Event<T>) -> bool {
    event is Push || event is Claim
}

/// How many places events add to the log.
pub open spec fn claims<T>(events: Seq<Event<T>>) -> nat
    decreases events.len(),
{
    if events.len() == 0 {
        0
    } else {
        claims(events.drop_last()) + if is_claim(events.last()) {
            1nat
        } else {
            0nat
        }
    }
}

/// Of two claims, the later one is to the later place, and a stream that receives what was put in
/// both places receives that of the earlier claim first. So what one sender sends is received in
/// the order in which it claimed the places, and so is what several senders send.
pub proof fn lemma_received_in_claim_order<T>(
    states: Seq<QueueView<T>>,
    events: Seq<Event<T>>,
    pos: usize,
    first: int,
    second: int,
    a: int,
    b: int,
)
    requires
        is_run(states, events),
        stays(states, pos),
        0 <= first < second < events.len(),
        is_claim(events[first]),
        is_claim(events[second]),
        0 <= a < events.len(),
        0 <= b < events.len(),
        events[a] matches Event::Receive(p, _) && p == pos,
        events[b] matches Event::Receive(p, _) && p == pos,
        states[a].positions[pos] == states[first].sent(),
        states[b].positions[pos] == states[second].sent(),
    ensures
        states[first].sent() < states[second].sent(),
        a < b,
{
    assert(step(states[first], events[first], states[first + 1]));
    lemma_sent_grows(states, events, first + 1, second);
    if b <= a {
        lemma_forward(states, events, pos, b, a);
    }
}

/// The log never gets shorter.
proof fn lemma_sent_grows<T>(states: Seq<QueueView<T>>, events: Seq<Event<T>>, i: int, j: int)
    requires
        is_run(states, events),
        0 <= i <= j < states.len(),
    ensures
        states[i].sent() <= states[j].sent(),
    decreases j - i,
{
    if i < j {
        lemma_sent_grows(states, events, i, j - 1);
        assert(step(states[j - 1], events[j - 1], states[j]));
    }
}

/// Who added the places to the log, in their order, when the event at each number is that of the
/// sender whom `who` names there.
pub open spec fn origins<T>(events: Seq<Event<T>>, who: Seq<nat>) -> Seq<nat>
    decreases events.len(),
{
    if events.len() == 0 {
        Seq::empty()
    } else {
        let front = origins(events.drop_last(), who);
        if is_claim(events.last()) {
            front.push(who[events.len() - 1])
        } else {
            front
        }
    }
}

/// Those of `vals` that come from `sender`, in their order, when `from` names the sender of each.
pub open spec fn of_sender<T>(vals: Seq<T>, from: Seq<nat>, sender: nat) -> Seq<T>
    decreases vals.len(),
{
    if vals.len() == 0 {
        Seq::empty()
    } else {
        let front = of_sender(vals.drop_last(), from, sender);
        if from[vals.len() - 1] == sender {
            front.push(vals.last())
        } else {
            front
        }
    }
}

/// What `sender` has put into the places that it claimed in a run, in the order of its claims, when
/// the run began with `base` places and ends with `log`.
pub open spec fn sent_by<T>(
    log: Seq<Option<T>>,
    base: nat,
    events: Seq<Event<T>>,
    who: Seq<nat>,
    sender: nat,
) -> Seq<T>
    decreases events.len(),
{
    if events.len() == 0 {
        Seq::empty()
    } else {
        let front = sent_by(log, base, events.drop_last(), who, sender);
        if is_claim(events.last()) && who[events.len() - 1] == sender {
            front.push(log[(base + claims(events.drop_last())) as int]->0)
        } else {
            front
        }
    }
}

/// What `sender` has sent in one go each time, in order.
pub open spec fn pushed_by<T>(events: Seq<Event<T>>, who: Seq<nat>, sender: nat) -> Seq<T>
    decreases events.len(),
{
    if events.len() == 0 {
        Seq::empty()
    } else {
        let front = pushed_by(events.drop_last(), who, sender);
        match events.last() {
            Event::Push(val) => if who[events.len() - 1] == sender {
                front.push(val)
            } else {
                front
            },
            _ => front,
        }
    }
}

/// Each sender's values are received in the order in which it sent them, whatever the other senders
/// do: what a stream, from the end of the log on, has received of a sender is what that sender sent
/// first, and all that it sent when the stream has received everything.
pub proof fn lemma_each_sender_in_order<T>(
    states: Seq<QueueView<T>>,
    events: Seq<Event<T>>,
    who: Seq<nat>,
    pos: usize,
    sender: nat,
)
    requires
        is_run(states, events),
        stays(states, pos),
        states[0].wf(),
        states[0].positions[pos] == states[0].sent(),
        who.len() == events.len(),
    ensures
        ({
            let vals = received(events, pos);
            let from = origins(events, who);
            let sent = sent_by(states.last().log, states[0].sent(), events, who, sender);
            &&& vals.len() <= from.len()
            &&& of_sender(vals, from, sender).is_prefix_of(sent)
            &&& states.last().positions[pos] == states.last().sent() ==> of_sender(vals, from, sender) == sent
            &&& (forall|i: int| 0 <= i < events.len() ==> !((#[trigger] events[i]) is Claim)) ==> sent
                == pushed_by(events, who, sender)
        }),
{
    let vals = received(events, pos);
    let from = origins(events, who);
    let log = states.last().log;
    let base = states[0].sent();
    lemma_fifo(states, events, pos);
    lemma_claims(states, events, who);
    let all = Seq::new(claims(events), |k: int| log[base + k]->0);
    assert(vals =~= all.take(vals.len() as int)) by {
        assert forall|k: int| 0 <= k < vals.len() implies vals[k] == all[k] by {
            assert(log[base + k] == Some(vals[k]));
        }
    }
    lemma_of_sender(all, from, vals.len(), sender);
    lemma_sent_by(log, base, events, who, sender);
    if vals.len() == all.len() {
        assert(vals =~= all);
    }
    if forall|i: int| 0 <= i < events.len() ==> !((#[trigger] events[i]) is Claim) {
        lemma_pushed(states, events);
        lemma_pushed_by(log, base, events, who, sender);
    }
}

/// A run adds as many places to the log as there are claims in it, and each has its sender.
proof fn lemma_claims<T>(states: Seq<QueueView<T>>, events: Seq<Event<T>>, who: Seq<nat>)
    requires
        is_run(states, events),
    ensures
        states.last().sent() == states[0].sent() + claims(events),
        origins(events, who).len() == claims(events),
    decreases events.len(),
{
    if events.len() > 0 {
        lemma_front(states, events);
        lemma_claims(states.drop_last(), events.drop_last(), who);
    }
}

/// What comes from a sender among the first values is the first part of what comes from it.
proof fn lemma_of_sender<T>(vals: Seq<T>, from: Seq<nat>, n: nat, sender: nat)
    requires
        n <= vals.len(),
    ensures
        of_sender(vals.take(n as int), from, sender).is_prefix_of(of_sender(vals, from, sender)),
    decreases vals.len(),
{
    if n == vals.len() {
        assert(vals.take(n as int) =~= vals);
    } else {
        lemma_of_sender(vals.drop_last(), from, n, sender);
        assert(vals.drop_last().take(n as int) =~= vals.take(n as int));
    }
}

/// What a sender has put into its places is what comes from it among all that was put into places.
proof fn lemma_sent_by<T>(log: Seq<Option<T>>, base: nat, events: Seq<Event<T>>, who: Seq<nat>, sender: nat)
    ensures
        origins(events, who).len() == claims(events),
        of_sender(
            Seq::new(claims(events), |k: int| log[base + k]->0),
            origins(events, who),
            sender,
        ) == sent_by(log, base, events, who, sender),
    decreases events.len(),
{
    if events.len() > 0 {
        let front = events.drop_last();
        lemma_sent_by(log, base, front, who, sender);
        let all = Seq::new(claims(events), |k: int| log[base + k]->0);
        let less = Seq::new(claims(front), |k: int| log[base + k]->0);
        let from = origins(events, who);
        if is_claim(events.last()) {
            assert(all.drop_last() =~= less);
            lemma_same_senders(less, origins(front, who), from, sender);
        } else {
            assert(all =~= less);
        }
    }
}

/// What comes from a sender depends only on the senders of the values that there are.
proof fn lemma_same_senders<T>(vals: Seq<T>, a: Seq<nat>, b: Seq<nat>, sender: nat)
    requires
        forall|k: int| 0 <= k < vals.len() ==> #[trigger] a[k] == b[k],
    ensures
        of_sender(vals, a, sender) == of_sender(vals, b, sender),
    decreases vals.len(),
{
    if vals.len() > 0 {
        lemma_same_senders(vals.drop_last(), a, b, sender);
        assert(a[vals.len() - 1] == b[vals.len() - 1]);
    }
}

/// Where every value is sent in one go, what a sender has put into its places is what it has sent.
proof fn lemma_pushed_by<T>(log: Seq<Option<T>>, base: nat, events: Seq<Event<T>>, who: Seq<nat>, sender: nat)
    requires
        forall|i: int| 0 <= i < events.len() ==> !((#[trigger] events[i]) is Claim),
        forall|k: int| 0 <= k < pushed(events).len() ==> log[base + k] == Some(#[trigger] pushed(events)[k]),
    ensures
        claims(events) == pushed(events).len(),
        sent_by(log, base, events, who, sender) == pushed_by(events, who, sender),
    decreases events.len(),
{
    if events.len() > 0 {
        let front = events.drop_last();
        assert forall|i: int| 0 <= i < front.len() implies !((#[trigger] front[i]) is Claim) by {
            assert(events[i] == front[i]);
        }
        assert forall|k: int| 0 <= k < pushed(front).len() implies log[base + k] == Some(
            #[trigger] pushed(front)[k],
        ) by {
            assert(pushed(events)[k] == pushed(front)[k]);
        }
        lemma_pushed_by(log, base, front, who, sender);
        assert(!(events[events.len() - 1] is Claim));
        if let Event::Push(val) = events.last() {
            assert(pushed(events)[pushed(front).len() as int] == val);
        }
    }
}

/// What is sent in one go each time is received in the order of sending, and nothing else is: what
/// a stream, from the end of the log on, has received is what was sent first, and all of it when
/// the stream has received everything.
pub proof fn lemma_sends_in_order<T>(states: Seq<QueueView<T>>, events: Seq<Event<T>>, pos: usize)
    requires
        is_run(states, events),
        stays(states, pos),
        states[0].wf(),
        states[0].positions[pos] == states[0].sent(),
        forall|i: int| 0 <= i < events.len() ==> !((#[trigger] events[i]) is Claim),
    ensures
        received(events, pos).is_prefix_of(pushed(events)),
        states.last().positions[pos] == states.last().sent() ==> received(events, pos) == pushed(events),
{
    lemma_fifo(states, events, pos);
    lemma_pushed(states, events);
    let from = states[0].sent();
    let a = received(events, pos);
    let b = pushed(events);
    assert forall|k: int| 0 <= k < a.len() implies a[k] == b[k] by {
        assert(states.last().log[from + k] == Some(a[k]));
        assert(states.last().log[from + k] == Some(b[k]));
    }
    assert(a =~= b.take(a.len() as int));
    if a.len() == b.len() {
        assert(a =~= b);
    }
}

/// What is sent in one go each time is the end of the log.
proof fn lemma_pushed<T>(states: Seq<QueueView<T>>, events: Seq<Event<T>>)
    requires
        is_run(states, events),
        forall|i: int| 0 <= i < events.len() ==> !((#[trigger] events[i]) is Claim),
    ensures
        states.last().sent() == states[0].sent() + pushed(events).len(),
        forall|k: int|
            0 <= k < pushed(events).len() ==> states.last().log[states[0].sent() + k] == Some(
                #[trigger] pushed(events)[k],
            ),
    decreases events.len(),
{
    if events.len() > 0 {
        lemma_front(states, events);
        let front = events.drop_last();
        assert forall|i: int| 0 <= i < front.len() implies !((#[trigger] front[i]) is Claim) by {
            assert(events[i] == front[i]);
        }
        lemma_pushed(states.drop_last(), front);
        let last = states[events.len() - 1];
        assert forall|k: int| 0 <= k < pushed(events).len() implies states.last().log[states[0].sent() + k]
            == Some(#[trigger] pushed(events)[k]) by {
            if k < pushed(front).len() {
                assert(pushed(events)[k] == pushed(front)[k]);
                assert(last.log[states[0].sent() + k] == Some(pushed(front)[k]));
            }
        }
        assert(!(events[events.len() - 1] is Claim));
    }
}

/// Each place of the log is received once by each stream: of two receptions by a stream that
/// stays, the later one is of a later place.
pub proof fn lemma_once<T>(states: Seq<QueueView<T>>, events: Seq<Event<T>>, pos: usize, i: int, j: int)
    requires
        is_run(states, events),
        stays(states, pos),
        0 <= i < j < events.len(),
        events[i] matches Event::Receive(p, _) && p == pos,
        events[j] matches Event::Receive(p, _) && p == pos,
    ensures
        states[i].positions[pos] < states[j].positions[pos],
{
    assert(step(states[i], events[i], states[i + 1]));
    lemma_forward(states, events, pos, i + 1, j);
}

/// A stream that stays never goes back.
pub proof fn lemma_forward<T>(states: Seq<QueueView<T>>, events: Seq<Event<T>>, pos: usize, i: int, j: int)
    requires
        is_run(states, events),
        stays(states, pos),
        0 <= i <= j < states.len(),
    ensures
        states[i].positions[pos] <= states[j].positions[pos],
    decreases j - i,
{
    if i < j {
        lemma_forward(states, events, pos, i, j - 1);
        assert(step(states[j - 1], events[j - 1], states[j]));
        assert(states[j - 1].is_live(pos) && states[j].is_live(pos));
    }
}

/// What a sender does is to send one value, or nothing.
pub proof fn lemma_send_step<T>(
    before: QueueView<T>,
    token: usize,
    val: T,
    res: Result<(), TrySendError<T>>,
    after: QueueView<T>,
)
    requires
        before.sends(token, val, res, after),
    ensures
        step(
            before,
            if res is Ok {
                Event::Push(val)
            } else {
                Event::Quiet
            },
            after,
        ),
{
}

/// To claim a place and to fill it are steps of their own.
pub proof fn lemma_claim_steps<T>(before: QueueView<T>, place: nat, val: T)
    ensures
        step(before, Event::Claim, before.claimed()),
        before.is_open(place) ==> step(before, Event::Publish(place, val), before.published(place, val)),
{
}

/// What a try to receive does is to move the stream on by one value, or nothing.
pub proof fn lemma_receive_step<D: DoDrop<T>, T>(
    before: QueueView<T>,
    token: usize,
    pos: usize,
    res: Result<T, TryRecvError>,
    after: QueueView<T>,
)
    requires
        before.is_live(pos),
        before.attended(token).receives::<D>(pos, res, after),
    ensures
        step(
            before,
            if res is Ok {
                Event::Receive(pos, before.next_value(pos))
            } else {
                Event::Quiet
            },
            after,
        ),
        res matches Ok(val) ==> D::delivers(before.next_value(pos), val),
{
}

/// What receiving does, where it waits, is to move the stream on by one value, or nothing.
pub proof fn lemma_await_step<D: DoDrop<T>, T>(
    before: QueueView<T>,
    token: usize,
    pos: usize,
    res: Blocking<Result<T, RecvError>>,
    after: QueueView<T>,
)
    requires
        before.is_live(pos),
        before.attended(token).awaits::<D>(pos, res, after),
    ensures
        step(
            before,
            if res matches Blocking::Done(Ok(_)) {
                Event::Receive(pos, before.next_value(pos))
            } else {
                Event::Quiet
            },
            after,
        ),
{
}

/// To look at a value in its place moves the stream on by one value, as to receive it does.
pub proof fn lemma_view_step<T, R, F: FnOnce(&T) -> R>(
    before: QueueView<T>,
    token: usize,
    pos: usize,
    op: F,
    res: Result<R, (F, TryRecvError)>,
    after: QueueView<T>,
)
    requires
        before.is_live(pos),
        before.attended(token).tries_view(pos, op, res, after),
    ensures
        step(
            before,
            if res is Ok {
                Event::Receive(pos, before.next_value(pos))
            } else {
                Event::Quiet
            },
            after,
        ),
        res matches Ok(val) ==> op.ensures((&before.next_value(pos),), val),
{
}

/// To look at a value in its place, where the receiver waits for it, moves the stream on by one
/// value, or does nothing.
pub proof fn lemma_await_view_step<T, R, F: FnOnce(&T) -> R>(
    before: QueueView<T>,
    token: usize,
    pos: usize,
    op: F,
    res: Result<R, (F, Blocking<RecvError>)>,
    after: QueueView<T>,
)
    requires
        before.is_live(pos),
        before.attended(token).awaits_view(pos, op, res, after),
    ensures
        step(
            before,
            if res is Ok {
                Event::Receive(pos, before.next_value(pos))
            } else {
                Event::Quiet
            },
            after,
        ),
        res matches Ok(val) ==> op.ensures((&before.next_value(pos),), val),
{
}

/// An iterator that waits for values moves its stream on by the value that it gives, if any.
pub proof fn lemma_iterate_step<D: DoDrop<T>, T>(
    before: QueueView<T>,
    token: usize,
    pos: usize,
    res: Blocking<Option<T>>,
    after: QueueView<T>,
)
    requires
        before.is_live(pos),
        crate::iterators::yields::<D, T>(before.attended(token), pos, res, after),
    ensures
        step(
            before,
            if res matches Blocking::Done(Some(_)) {
                Event::Receive(pos, before.next_value(pos))
            } else {
                Event::Quiet
            },
            after,
        ),
        res == Blocking::Done(None::<T>) <==> !before.is_readable(pos) && before.writers == 0,
{
}

/// An iterator that does not wait moves its stream on by the value that it gives, and ends when
/// none is there.
pub proof fn lemma_iterate_now_step<D: DoDrop<T>, T>(
    before: QueueView<T>,
    token: usize,
    pos: usize,
    res: Option<T>,
    after: QueueView<T>,
)
    requires
        before.is_live(pos),
        crate::iterators::yields_now::<D, T>(before.attended(token), pos, res, after),
    ensures
        step(
            before,
            if res is Some {
                Event::Receive(pos, before.next_value(pos))
            } else {
                Event::Quiet
            },
            after,
        ),
        res is None <==> !before.is_readable(pos),
{
}

/// Iterators with a function move their stream on by the value of which they give what the
/// function makes.
pub proof fn lemma_iterate_view_steps<T, R, F: FnMut(&T) -> R>(
    before: QueueView<T>,
    token: usize,
    pos: usize,
    op: F,
    res: Blocking<Option<R>>,
    after: QueueView<T>,
    res_now: Option<R>,
    after_now: QueueView<T>,
)
    requires
        before.is_live(pos),
        crate::iterators::yields_view(before.attended(token), pos, op, res, after),
        crate::iterators::yields_view_now(before.attended(token), pos, op, res_now, after_now),
    ensures
        step(
            before,
            if res matches Blocking::Done(Some(_)) {
                Event::Receive(pos, before.next_value(pos))
            } else {
                Event::Quiet
            },
            after,
        ),
        step(
            before,
            if res_now is Some {
                Event::Receive(pos, before.next_value(pos))
            } else {
                Event::Quiet
            },
            after_now,
        ),
        res == Blocking::Done(None::<R>) <==> !before.is_readable(pos) && before.writers == 0,
        res_now is None <==> !before.is_readable(pos),
{
}

/// To add a stream is a step, and so is to remove it, which the last consumer does.
pub proof fn lemma_stream_steps<T>(before: QueueView<T>, from: usize, pos: usize, token: usize)
    requires
        before.is_live(from),
    ensures
        !before.is_live(pos) ==> step(
            before,
            Event::Join(from, pos),
            before.with_stream(from, pos).with_token(token),
        ),
        step(
            before,
            if before.cursor.streams[from].consumers == 1 {
                Event::Leave(from)
            } else {
                Event::Quiet
            },
            before.left_by(from, token),
        ),
{
}

/// Senders and consumers come and go without any change to the log or to the streams.
pub proof fn lemma_quiet_steps<T>(before: QueueView<T>, pos: usize, token: usize)
    ensures
        step(before, Event::Quiet, before.with_writer(token)),
        step(before, Event::Quiet, before.without_writer(token)),
        step(before, Event::Quiet, before.with_consumer(pos).with_token(token)),
        step(before, Event::Quiet, before.single(pos)),
        step(before, Event::Quiet, before.attended(token)),
        step(before, Event::Quiet, (QueueView { wake: false, ..before })),
{
}

/// A queue never holds more than its capacity: no stream has more before it than that.
pub proof fn lemma_bounded<T>(queue: QueueView<T>, pos: usize)
    requires
        queue.wf(),
        queue.is_live(pos),
    ensures
        0 <= queue.backlog(pos) <= queue.capacity,
{
    assert(queue.stream_wf(pos));
}

/// What is sent can be received: after a value was sent, a stream that had received everything
/// receives it next.
pub proof fn lemma_send_then_receive<D: DoDrop<T>, T>(
    before: QueueView<T>,
    sender: usize,
    val: T,
    sent: Result<(), TrySendError<T>>,
    mid: QueueView<T>,
    token: usize,
    pos: usize,
    res: Result<T, TryRecvError>,
    after: QueueView<T>,
)
    requires
        before.wf(),
        before.is_live(pos),
        before.positions[pos] == before.sent(),
        before.sends(sender, val, sent, mid),
        sent is Ok,
        mid.attended(token).receives::<D>(pos, res, after),
    ensures
        res matches Ok(out) && D::delivers(val, out),
        after.positions[pos] == after.sent(),
{
}

/// A stream that has as much before it as the queue can hold keeps senders from sending.
pub proof fn lemma_slow_stream_blocks<T>(
    before: QueueView<T>,
    pos: usize,
    token: usize,
    val: T,
    res: Result<(), TrySendError<T>>,
    after: QueueView<T>,
)
    requires
        before.is_live(pos),
        before.backlog(pos) == before.capacity,
        before.sends(token, val, res, after),
    ensures
        res == Err::<(), TrySendError<T>>(TrySendError::Full(val)),
        after.log == before.log,
{
    assert(before.is_full());
    assert(!before.is_deserted());
}

/// Where the slowest stream alone keeps senders from sending, there is room again when it
/// receives a value or is removed.
pub proof fn lemma_room_again<T>(queue: QueueView<T>, pos: usize, token: usize)
    requires
        queue.wf(),
        queue.is_live(pos),
        forall|p: usize| #[trigger] queue.is_live(p) && p != pos ==> queue.backlog(p) < queue.capacity,
    ensures
        !queue.advanced(pos).is_full(),
        !queue.viewed(pos).is_full(),
        queue.cursor.streams[pos].consumers == 1 ==> !queue.left_by(pos, token).is_full(),
{
    assert(queue.stream_wf(pos));
    assert forall|p: usize| #[trigger] queue.advanced(pos).is_live(p) implies queue.advanced(pos).backlog(p)
        < queue.capacity by {
        assert(queue.is_live(p));
    }
    assert forall|p: usize| #[trigger] queue.viewed(pos).is_live(p) implies queue.viewed(pos).backlog(p)
        < queue.capacity by {
        assert(queue.is_live(p));
    }
    if queue.cursor.streams[pos].consumers == 1 {
        let left = queue.left_by(pos, token);
        assert forall|p: usize| #[trigger] left.is_live(p) implies left.backlog(p) < queue.capacity by {
            assert(queue.is_live(p));
        }
    }
}

/// A sender is told that no stream is left if and only if none is.
pub proof fn lemma_disconnected_sender<T>(
    before: QueueView<T>,
    token: usize,
    val: T,
    res: Result<(), TrySendError<T>>,
    after: QueueView<T>,
)
    requires
        before.sends(token, val, res, after),
    ensures
        res matches Err(TrySendError::Disconnected(_)) <==> forall|pos: usize| !before.is_live(pos),
{
    if forall|pos: usize| !before.is_live(pos) {
        assert(before.positions.dom() =~= Set::<usize>::empty());
    }
}

/// The last consumer of the last stream leaves the queue deserted, for good: no operation but one
/// of a receiver adds a stream.
pub proof fn lemma_deserted_for_good<T>(states: Seq<QueueView<T>>, events: Seq<Event<T>>)
    requires
        is_run(states, events),
        states[0].is_deserted(),
    ensures
        states.last().is_deserted(),
    decreases events.len(),
{
    if events.len() > 0 {
        lemma_front(states, events);
        lemma_deserted_for_good(states.drop_last(), events.drop_last());
    }
}

/// What was sent before the last sender left can still be received. A receiver is told that it
/// waits in vain only when its stream has passed every place that was filled.
pub proof fn lemma_drain<D: DoDrop<T>, T>(
    before: QueueView<T>,
    token: usize,
    pos: usize,
    res: Result<T, TryRecvError>,
    after: QueueView<T>,
)
    requires
        before.wf(),
        before.is_live(pos),
        before.writers == 0,
        forall|n: int| 0 <= n < before.sent() ==> (#[trigger] before.log[n]) is Some,
        before.attended(token).receives::<D>(pos, res, after),
    ensures
        before.positions[pos] < before.sent() <==> res is Ok,
        before.positions[pos] == before.sent() <==> res == Err::<T, TryRecvError>(TryRecvError::Disconnected),
{
    assert(before.stream_wf(pos));
}

/// A receiver is told that the queue is empty only while there are senders.
pub proof fn lemma_empty_means_senders<D: DoDrop<T>, T>(
    before: QueueView<T>,
    token: usize,
    pos: usize,
    res: Result<T, TryRecvError>,
    after: QueueView<T>,
)
    requires
        before.attended(token).receives::<D>(pos, res, after),
    ensures
        res == Err::<T, TryRecvError>(TryRecvError::Empty) <==> !before.is_readable(pos) && before.writers > 0,
{
}

/// Streams do not depend on each other: what one receives does not move another, nor change what
/// the other receives next.
pub proof fn lemma_streams_independent<T>(queue: QueueView<T>, pos: usize, other: usize)
    requires
        queue.is_live(other),
        pos != other,
    ensures
        queue.advanced(pos).is_live(other),
        queue.advanced(pos).positions[other] == queue.positions[other],
        queue.advanced(pos).is_readable(other) == queue.is_readable(other),
        queue.advanced(pos).next_value(other) == queue.next_value(other),
        queue.without_stream(pos).is_live(other),
        queue.without_stream(pos).is_readable(other) == queue.is_readable(other),
        queue.without_stream(pos).next_value(other) == queue.next_value(other),
{
}

/// A new stream receives next what the stream receives next from which it was made.
pub proof fn lemma_new_stream_same<T>(queue: QueueView<T>, from: usize, pos: usize, token: usize)
    requires
        queue.is_live(from),
        !queue.is_live(pos),
    ensures
        ({
            let after = queue.with_stream(from, pos).with_token(token);
            &&& after.is_live(pos)
            &&& after.positions[pos] == after.positions[from] == queue.positions[from]
            &&& after.is_readable(pos) == queue.is_readable(from)
            &&& after.is_readable(from) == queue.is_readable(from)
            &&& after.next_value(pos) == after.next_value(from)
        }),
{
}

/// Consumers of one stream share its values out: what one receives, the next one does not.
pub proof fn lemma_consumers_share<D: DoDrop<T>, T>(
    before: QueueView<T>,
    first: usize,
    second: usize,
    pos: usize,
    one: Result<T, TryRecvError>,
    mid: QueueView<T>,
    other: Result<T, TryRecvError>,
    after: QueueView<T>,
)
    requires
        before.is_live(pos),
        before.attended(first).receives::<D>(pos, one, mid),
        mid.attended(second).receives::<D>(pos, other, after),
        one is Ok,
        other is Ok,
    ensures
        ({
            let n = before.positions[pos] as int;
            &&& D::delivers(before.log[n]->0, one->Ok_0)
            &&& D::delivers(before.log[n + 1]->0, other->Ok_0)
            &&& after.positions[pos] == n + 2
        }),
{
}

/// A sender that has claimed a place, and does not fill it, keeps every stream from passing the
/// place, whatever is sent after it. When it fills the place, the streams that wait there receive
/// the value.
pub proof fn lemma_open_place_blocks<D: DoDrop<T>, T>(
    before: QueueView<T>,
    token: usize,
    pos: usize,
    val: T,
    res: Result<T, TryRecvError>,
    after: QueueView<T>,
)
    requires
        before.is_live(pos),
        before.is_open(before.positions[pos]),
        before.attended(token).receives::<D>(pos, res, after),
    ensures
        res is Err,
        after.positions[pos] == before.positions[pos],
        before.published(before.positions[pos], val).is_readable(pos),
        before.published(before.positions[pos], val).next_value(pos) == val,
{
}

/// Two claims are never to the same place, and a place that was claimed stays open until it is
/// filled.
pub proof fn lemma_claims_differ<T>(queue: QueueView<T>)
    ensures
        queue.claimed().is_open(queue.sent()),
        queue.claimed().claimed().is_open(queue.sent()),
        queue.claimed().sent() != queue.sent(),
{
}

/// A place that was claimed stays open for its holder, whatever else happens, until it is filled.
pub proof fn lemma_claim_held<T>(states: Seq<QueueView<T>>, events: Seq<Event<T>>, place: nat)
    requires
        is_run(states, events),
        states[0].is_open(place),
        forall|i: int|
            0 <= i < events.len() ==> ((#[trigger] events[i]) matches Event::Publish(n, _) ==> n != place),
    ensures
        states.last().is_open(place),
        states.last().capacity == states[0].capacity,
    decreases events.len(),
{
    if events.len() > 0 {
        lemma_front(states, events);
        let front = events.drop_last();
        assert forall|i: int| 0 <= i < front.len() implies ((#[trigger] front[i]) matches Event::Publish(n, _)
            ==> n != place) by {
            assert(events[i] == front[i]);
        }
        lemma_claim_held(states.drop_last(), front, place);
        assert(!(events[events.len() - 1] matches Event::Publish(n, _) && n == place));
    }
}

/// The place of a removed stream is not used for another one before it is released: it stays set
/// apart, and new streams get places that are not.
pub proof fn lemma_place_kept<T>(queue: QueueView<T>, place: usize, from: usize, pos: usize)
    requires
        queue.wf(),
        queue.cursor.left.contains(place),
        !queue.manager.released().contains(Retired::Pos(place)),
        !queue.manager.freed(Retired::Group(queue.cursor.group)).released().contains(Retired::Pos(place)),
    ensures
        !queue.is_live(place),
        queue.with_stream(from, pos).cursor.left.contains(place),
        queue.without_stream(from).cursor.left.contains(place),
{
    assert(queue.cursor.left.disjoint(queue.cursor.streams.dom()));
}

/// A queue knows the handle of a consumer of the stream at `pos`, or of a sender, registered under
/// `token`.
pub open spec fn knows<T>(queue: QueueView<T>, pos: Option<usize>, token: usize) -> bool {
    &&& queue.manager.has(token)
    &&& pos matches Some(p) ==> queue.is_live(p)
}

/// Whatever is done with one handle, the others stay good: only the last consumer of a stream
/// takes the stream along.
pub proof fn lemma_handles_stay<T>(
    queue: QueueView<T>,
    pos: Option<usize>,
    token: usize,
    other: usize,
    other_token: usize,
    val: T,
    new: usize,
)
    requires
        knows(queue, pos, token),
        token != other_token,
        queue.is_live(other),
    ensures
        knows(queue.attended(other_token).pushed(val), pos, token),
        knows(queue.attended(other_token).advanced(other), pos, token),
        knows(queue.attended(other_token).viewed(other), pos, token),
        knows(queue.with_writer(other_token), pos, token),
        knows(queue.without_writer(other_token), pos, token),
        knows(queue.with_consumer(other).with_token(other_token), pos, token),
        knows(queue.with_stream(other, new).with_token(other_token), pos, token),
        knows(queue.single(other), pos, token),
        pos != Some(other) || queue.cursor.streams[other].consumers != 1 ==> knows(
            queue.left_by(other, other_token),
            pos,
            token,
        ),
{
}

/// There is a slowest stream, or none at all.
pub proof fn lemma_slowest_exists<T>(queue: QueueView<T>)
    requires
        queue.wf(),
    ensures
        queue.is_slowest(queue.slowest()),
{
    let group = queue.cursor.group;
    assert forall|i: int| 0 <= i < group.len() implies queue.is_live(#[trigger] group[i]) by {
        assert(group.to_set().contains(group[i]));
    }
    let p = lemma_slowest_among(queue, group.len());
    assert forall|pos: usize| #[trigger] queue.is_live(pos) implies p <= queue.positions[pos] by {
        assert(group.to_set().contains(pos));
        let i = choose|i: int| 0 <= i < group.len() && group[i] == pos;
        assert(p <= queue.positions[group[i]]);
    }
    assert(queue.is_slowest(p));
}

/// Among the first `k` streams there is a slowest one.
proof fn lemma_slowest_among<T>(queue: QueueView<T>, k: nat) -> (p: nat)
    requires
        queue.wf(),
        k <= queue.cursor.group.len(),
        forall|i: int| 0 <= i < queue.cursor.group.len() ==> queue.is_live(#[trigger] queue.cursor.group[i]),
    ensures
        forall|i: int| 0 <= i < k ==> p <= queue.positions[#[trigger] queue.cursor.group[i]],
        p == queue.sent() || exists|pos: usize| #[trigger] queue.is_live(pos) && p == queue.positions[pos],
        p <= queue.sent(),
    decreases k,
{
    if k == 0 {
        queue.sent()
    } else {
        let p = lemma_slowest_among(queue, (k - 1) as nat);
        let last = queue.cursor.group[k - 1];
        assert(queue.stream_wf(last));
        if queue.positions[last] < p {
            queue.positions[last]
        } else {
            p
        }
    }
}

/// What senders have seen of the slowest stream never goes back, and no stream is behind it.
pub proof fn lemma_tail_forward<T>(queue: QueueView<T>, val: T, pos: usize)
    requires
        queue.wf(),
    ensures
        queue.cached_tail <= queue.refreshed_tail() <= queue.sent(),
        queue.cached_tail <= queue.pushed(val).cached_tail,
        queue.cached_tail <= queue.claimed().cached_tail,
        queue.is_live(pos) ==> queue.cached_tail <= queue.positions[pos],
        queue.is_live(pos) ==> queue.refreshed_tail() <= queue.positions[pos],
{
    lemma_slowest_exists(queue);
    let p = queue.slowest();
    if queue.is_live(pos) {
        assert(queue.stream_wf(pos));
    }
    if p != queue.sent() {
        let slow = choose|slow: usize| #[trigger] queue.is_live(slow) && p == queue.positions[slow];
        assert(queue.stream_wf(slow));
    }
}

/// A send succeeds exactly when there are streams and each of them has room, however often the
/// counts have come round.
pub proof fn lemma_send_succeeds<T>(
    before: QueueView<T>,
    token: usize,
    val: T,
    res: Result<(), TrySendError<T>>,
    after: QueueView<T>,
)
    requires
        before.wf(),
        before.sends(token, val, res, after),
    ensures
        res is Ok <==> (exists|pos: usize| before.is_live(pos)) && forall|pos: usize| #[trigger]
            before.is_live(pos) ==> before.backlog(pos) < before.capacity,
{
    assert forall|pos: usize| #[trigger] before.is_live(pos) implies before.stream_wf(pos) by {}
    if before.is_deserted() {
        assert forall|pos: usize| !before.is_live(pos) by {}
    } else if forall|pos: usize| !before.is_live(pos) {
        assert(before.positions.dom() =~= Set::<usize>::empty());
    }
    if before.is_full() {
        let pos = choose|pos: usize| #[trigger]
            before.is_live(pos) && before.backlog(pos) == before.capacity;
        assert(before.is_live(pos));
    }
}

/// No wake-up is lost, and none comes for nothing. A receiver that waits for its next value finds a
/// reason to stop exactly when the value is there or no sender is left.
pub proof fn lemma_ready<T>(queue: QueueView<T>, pos: usize)
    requires
        queue.wf(),
        queue.is_live(pos),
    ensures
        crate::wait::is_ready(queue.awaited(pos).seq, queue.awaited_flag(pos), queue.writers)
            <==> queue.is_readable(pos) || queue.writers == 0,
{
    let n = queue.positions[pos] as int;
    let cap = queue.capacity as int;
    let lap = crate::countedindex::MASK_IND as int;
    assert(queue.stream_wf(pos));
    crate::countedindex::lemma_lap();
    crate::countedindex::lemma_power_basics(cap);
    if queue.is_readable(pos) {
        vstd::arithmetic::div_mod::lemma_mod_twice(n, lap);
    } else if n >= cap {
        assert(queue.log[n - cap] is Some);
        assert(queue.awaited_flag(pos) == crate::countedindex::untagged(n - cap));
        vstd::arithmetic::div_mod::lemma_mod_twice(n - cap, lap);
        crate::countedindex::lemma_counts_differ(n, n - cap);
        crate::countedindex::lemma_lead(n, n - cap);
    } else {
        // The slot was never filled: its flag stands for the count before the first.
        vstd::arithmetic::div_mod::lemma_mod_multiples_vanish(1, lap - 1, lap);
        vstd::arithmetic::div_mod::lemma_mod_multiples_vanish(1, -1, lap);
        crate::countedindex::lemma_counts_differ(n, -1);
        crate::countedindex::lemma_lead(n, -1);
    }
}

/// A receiver that waits is never refused while there are senders, and gets every value: where the
/// place after those that its stream has received is filled, to receive gives the value there. Where
/// it is not, the receiver waits while there are senders, and is told that it waits in vain when
/// there are none.
pub proof fn lemma_recv_returns<D: DoDrop<T>, T>(
    states: Seq<QueueView<T>>,
    events: Seq<Event<T>>,
    token: usize,
    pos: usize,
    res: Blocking<Result<T, RecvError>>,
    after: QueueView<T>,
)
    requires
        is_run(states, events),
        stays(states, pos),
        states[0].wf(),
        states.last().attended(token).awaits::<D>(pos, res, after),
    ensures
        ({
            let now = states.last();
            let from = states[0].positions[pos];
            let next = from + received(events, pos).len();
            &&& next <= now.sent()
            &&& next < now.sent() && now.log[next as int] is Some ==> (res matches Blocking::Done(Ok(val))
                && D::delivers(now.log[next as int]->0, val))
            &&& next == now.sent() || now.is_open(next) ==> res == if now.writers == 0 {
                Blocking::Done(Err::<T, RecvError>(RecvError))
            } else {
                Blocking::Wait(now.awaited(pos))
            }
        }),
{
    lemma_fifo(states, events, pos);
}

/// Senders and receivers that try again and again never wait for each other: while there are streams,
/// a sender can send, or a stream can receive, or a place waits for the sender that claimed it. A
/// stream cannot receive only when it stands at such a place, or has received everything.
pub proof fn lemma_never_stuck<T>(
    queue: QueueView<T>,
    token: usize,
    val: T,
    res: Result<(), TrySendError<T>>,
    after: QueueView<T>,
)
    requires
        queue.wf(),
        !queue.is_deserted(),
        queue.sends(token, val, res, after),
    ensures
        ({
            ||| res is Ok
            ||| exists|pos: usize| #[trigger] queue.is_live(pos) && queue.is_readable(pos)
            ||| exists|n: nat| queue.is_open(n)
        }),
        forall|pos: usize| #[trigger]
            queue.is_live(pos) ==> queue.is_readable(pos) || queue.is_open(queue.positions[pos])
                || queue.positions[pos] == queue.sent(),
{
    assert forall|pos: usize| #[trigger] queue.is_live(pos) implies queue.stream_wf(pos) by {}
    if res is Err {
        let pos = choose|pos: usize| #[trigger]
            queue.is_live(pos) && queue.backlog(pos) == queue.capacity;
        crate::countedindex::lemma_power_basics(queue.capacity as int);
        assert(queue.is_readable(pos) || queue.is_open(queue.positions[pos]));
    }
}

/// `res` and `after` are what comes of a consumer of the stream at `pos` that receives, at first or
/// after a wait.
pub open spec fn takes<D: DoDrop<T>, T>(
    before: QueueView<T>,
    pos: usize,
    res: Blocking<Result<T, RecvError>>,
    after: QueueView<T>,
) -> bool {
    ||| before.awaits::<D>(pos, res, after)
    ||| exists|token: usize| (#[trigger] before.attended(token)).awaits::<D>(pos, res, after)
}

/// Consumers of the stream at `pos` receive one after the other, with these results, while the queue
/// goes from each of the states to the next.
pub open spec fn takes_all<D: DoDrop<T>, T>(
    states: Seq<QueueView<T>>,
    pos: usize,
    results: Seq<Blocking<Result<T, RecvError>>>,
) -> bool {
    &&& states.len() == results.len() + 1
    &&& forall|i: int|
        0 <= i < results.len() ==> takes::<D, T>(states[i], pos, #[trigger] results[i], states[i + 1])
}

/// The values that the stream at `pos` still has before it.
pub open spec fn remaining<T>(queue: QueueView<T>, pos: usize) -> Seq<T> {
    Seq::new(queue.backlog(pos) as nat, |k: int| queue.log[queue.positions[pos] + k]->0)
}

/// Receiving comes to its end. Whatever was done before, once every place is filled and no sender is
/// left, every consumer that receives gets an answer at once: those of a stream get all that it has
/// before it, in order, and whoever comes after that is told that there is nothing more. With what
/// the stream had received before, that is everything since the run began, once each and in the order
/// of the log; and for a stream that began at the end of the log, it is of each sender everything
/// that it has sent, in its order.
pub proof fn lemma_recv_to_the_end<D: DoDrop<T>, T>(
    states: Seq<QueueView<T>>,
    events: Seq<Event<T>>,
    who: Seq<nat>,
    pos: usize,
    rest: Seq<QueueView<T>>,
    results: Seq<Blocking<Result<T, RecvError>>>,
    sender: nat,
)
    requires
        is_run(states, events),
        stays(states, pos),
        states[0].wf(),
        who.len() == events.len(),
        forall|n: int| 0 <= n < states.last().sent() ==> (#[trigger] states.last().log[n]) is Some,
        states.last().writers == 0,
        rest[0] == states.last(),
        takes_all::<D, T>(rest, pos, results),
    ensures
        ({
            let now = states.last();
            let from = states[0].positions[pos];
            let base = states[0].sent();
            let left = remaining(now, pos);
            let all = received(events, pos) + left;
            let sent = sent_by(now.log, base, events, who, sender);
            &&& forall|i: int|
                0 <= i < results.len() && i < left.len() ==> (#[trigger] results[i] matches Blocking::Done(
                    Ok(val),
                ) && D::delivers(left[i], val))
            &&& forall|i: int|
                left.len() <= i < results.len() ==> #[trigger] results[i] == Blocking::Done(
                    Err::<T, RecvError>(RecvError),
                )
            &&& all.len() == now.sent() - from
            &&& forall|k: int| 0 <= k < all.len() ==> now.log[from + k] == Some(#[trigger] all[k])
            &&& from == base ==> of_sender(all, origins(events, who), sender) == sent
            &&& (forall|i: int| 0 <= i < events.len() ==> !((#[trigger] events[i]) is Claim)) ==> sent
                == pushed_by(events, who, sender)
        }),
{
    let now = states.last();
    let from = states[0].positions[pos];
    let base = states[0].sent();
    let left = remaining(now, pos);
    let got = received(events, pos);
    let all = got + left;
    lemma_fifo(states, events, pos);
    assert(states[events.len() as int].is_live(pos));
    assert forall|i: int| 0 <= i < results.len() implies rest[i].log == now.log && rest[i].writers == 0
        && rest[i].positions[pos] == now.positions[pos] + if i < left.len() {
        i
    } else {
        left.len() as int
    } by {
        lemma_taken::<D, T>(rest, pos, results, i);
    }
    assert forall|i: int| 0 <= i < results.len() implies #[trigger] results[i] == if i < left.len() {
        Blocking::Done(Ok::<T, RecvError>(results[i]->Done_0->Ok_0))
    } else {
        Blocking::Done(Err::<T, RecvError>(RecvError))
    } && (i < left.len() ==> D::delivers(left[i], results[i]->Done_0->Ok_0)) by {
        assert(takes::<D, T>(rest[i], pos, results[i], rest[i + 1]));
    }
    assert forall|k: int| 0 <= k < all.len() implies now.log[from + k] == Some(#[trigger] all[k]) by {
        if k < got.len() {
            assert(now.log[from + k] == Some(got[k]));
        } else {
            assert(all[k] == left[k - got.len()]);
            assert(now.log[from + k] is Some);
        }
    }
    lemma_claims(states, events, who);
    lemma_sent_by(now.log, base, events, who, sender);
    if from == base {
        let filled = Seq::new(claims(events), |k: int| now.log[base + k]->0);
        assert(all =~= filled) by {
            assert forall|k: int| 0 <= k < all.len() implies all[k] == filled[k] by {
                assert(now.log[from + k] == Some(all[k]));
            }
        }
    }
    if forall|i: int| 0 <= i < events.len() ==> !((#[trigger] events[i]) is Claim) {
        lemma_pushed(states, events);
        lemma_pushed_by(now.log, base, events, who, sender);
    }
}

/// What came of the receives that have returned, in order. Each of the calls is one receive, or one
/// that is taken up again after a wait, or something else.
pub open spec fn returned<T>(calls: Seq<Option<Blocking<Result<T, RecvError>>>>) -> Seq<
    Result<T, RecvError>,
>
    decreases calls.len(),
{
    if calls.len() == 0 {
        Seq::empty()
    } else {
        let front = returned(calls.drop_last());
        match calls.last() {
            Some(Blocking::Done(res)) => front.push(res),
            _ => front,
        }
    }
}

/// In the course of a run, `calls` are the receives of the consumers of the stream at `pos`: who
/// receives does so as a receive does, and nothing else moves the stream on.
pub open spec fn receives_are<D: DoDrop<T>, T>(
    states: Seq<QueueView<T>>,
    events: Seq<Event<T>>,
    pos: usize,
    calls: Seq<Option<Blocking<Result<T, RecvError>>>>,
) -> bool {
    &&& calls.len() == events.len()
    &&& forall|i: int|
        0 <= i < calls.len() ==> match #[trigger] calls[i] {
            Some(res) => takes::<D, T>(states[i], pos, res, states[i + 1]),
            None => !(events[i] matches Event::Receive(p, _) && p == pos),
        }
}

/// All receives return, in any interleaving with what senders and other streams do. In a run in which
/// senders leave when they have sent what they send, and after which every place is filled, the
/// receives of a stream return all that was sent, in order, each with a value; those after them
/// return an error. When no sender is left, none has to wait. Once as many have returned as there
/// are values, the stream has received everything; `lemma_each_sender_in_order` says what that is of
/// each sender.
pub proof fn lemma_all_recv_return<D: DoDrop<T>, T>(
    states: Seq<QueueView<T>>,
    events: Seq<Event<T>>,
    pos: usize,
    calls: Seq<Option<Blocking<Result<T, RecvError>>>>,
    next: Blocking<Result<T, RecvError>>,
    after: QueueView<T>,
)
    requires
        is_run(states, events),
        stays(states, pos),
        states[0].wf(),
        receives_are::<D, T>(states, events, pos, calls),
        forall|n: int| 0 <= n < states.last().sent() ==> (#[trigger] states.last().log[n]) is Some,
        forall|i: int|
            0 <= i < states.len() && (#[trigger] states[i]).writers == 0 ==> states[i].log
                == states.last().log,
        takes::<D, T>(states.last(), pos, next, after),
    ensures
        ({
            let now = states.last();
            let from = states[0].positions[pos] as int;
            let total = now.sent() - from;
            let done = returned(calls);
            &&& forall|k: int|
                0 <= k < done.len() && k < total ==> (#[trigger] done[k] matches Ok(val) && D::delivers(
                    now.log[from + k]->0,
                    val,
                ))
            &&& forall|k: int|
                total <= k < done.len() ==> #[trigger] done[k] == Err::<T, RecvError>(RecvError)
            &&& done.len() >= total ==> now.positions[pos] == now.sent()
            &&& done.len() < total ==> (next matches Blocking::Done(Ok(val)) && D::delivers(
                now.log[from + done.len()]->0,
                val,
            ))
            &&& now.writers == 0 ==> next is Done
        }),
{
    lemma_returned::<D, T>(states, events, pos, calls, events.len() as int);
    assert(calls.take(calls.len() as int) =~= calls);
    lemma_fifo(states, events, pos);
}

/// What of the receives has returned after so many steps.
proof fn lemma_returned<D: DoDrop<T>, T>(
    states: Seq<QueueView<T>>,
    events: Seq<Event<T>>,
    pos: usize,
    calls: Seq<Option<Blocking<Result<T, RecvError>>>>,
    n: int,
)
    requires
        is_run(states, events),
        stays(states, pos),
        states[0].wf(),
        receives_are::<D, T>(states, events, pos, calls),
        forall|k: int| 0 <= k < states.last().sent() ==> (#[trigger] states.last().log[k]) is Some,
        forall|i: int|
            0 <= i < states.len() && (#[trigger] states[i]).writers == 0 ==> states[i].log
                == states.last().log,
        0 <= n <= events.len(),
    ensures
        ({
            let log = states.last().log;
            let from = states[0].positions[pos] as int;
            let got = states[n].positions[pos] - from;
            let done = returned(calls.take(n));
            &&& 0 <= got <= done.len()
            &&& states[n].positions[pos] <= states[n].sent() <= log.len()
            &&& done.len() > got ==> states[n].positions[pos] == log.len()
            &&& forall|k: int|
                0 <= k < got ==> (#[trigger] done[k] matches Ok(val) && D::delivers(log[from + k]->0, val))
            &&& forall|k: int|
                got <= k < done.len() ==> #[trigger] done[k] == Err::<T, RecvError>(RecvError)
        }),
    decreases n,
{
    let last = events.len() as int;
    lemma_sent_grows(states, events, n, last);
    assert(states[n].is_live(pos));
    if n == 0 {
        assert(states[0].stream_wf(pos));
    } else {
        let before = states[n - 1];
        lemma_returned::<D, T>(states, events, pos, calls, n - 1);
        assert(calls.take(n).drop_last() =~= calls.take(n - 1));
        assert(calls.take(n).last() == calls[n - 1]);
        assert(before.is_live(pos));
        assert(step(before, events[n - 1], states[n]));
        if let Some(res) = calls[n - 1] {
            assert(takes::<D, T>(before, pos, res, states[n]));
            if before.is_readable(pos) {
                lemma_kept(states, events, n - 1, last, before.positions[pos] as int);
            }
        } else {
            assert(!(events[n - 1] matches Event::Receive(p, _) && p == pos));
        }
    }
}

/// A place that was filled keeps its value.
proof fn lemma_kept<T>(states: Seq<QueueView<T>>, events: Seq<Event<T>>, i: int, j: int, place: int)
    requires
        is_run(states, events),
        0 <= i <= j < states.len(),
        0 <= place < states[i].sent(),
        states[i].log[place] is Some,
    ensures
        place < states[j].sent(),
        states[j].log[place] == states[i].log[place],
    decreases j - i,
{
    if i < j {
        lemma_kept(states, events, i, j - 1, place);
        assert(step(states[j - 1], events[j - 1], states[j]));
    }
}

/// How far a stream has come when so many consumers have received, where every place is filled and
/// no sender is left.
proof fn lemma_taken<D: DoDrop<T>, T>(
    states: Seq<QueueView<T>>,
    pos: usize,
    results: Seq<Blocking<Result<T, RecvError>>>,
    i: int,
)
    requires
        takes_all::<D, T>(states, pos, results),
        0 <= i < states.len(),
        states[0].writers == 0,
        states[0].is_live(pos),
        states[0].positions[pos] <= states[0].sent(),
        forall|n: int| 0 <= n < states[0].sent() ==> (#[trigger] states[0].log[n]) is Some,
    ensures
        states[i].log == states[0].log,
        states[i].writers == 0,
        states[i].is_live(pos),
        states[i].positions[pos] == if states[0].positions[pos] + i <= states[0].sent() {
            states[0].positions[pos] + i
        } else {
            states[0].sent() as int
        },
    decreases i,
{
    if i > 0 {
        lemma_taken::<D, T>(states, pos, results, i - 1);
        assert(takes::<D, T>(states[i - 1], pos, results[i - 1], states[i]));
    }
}

/// A wait ends when there is something to return for: where to receive would give a value or an
/// error, the receiver that waits finds a reason to stop.
pub proof fn lemma_wait_ends<D: DoDrop<T>, T>(
    queue: QueueView<T>,
    pos: usize,
    res: Blocking<Result<T, RecvError>>,
    after: QueueView<T>,
)
    requires
        queue.wf(),
        queue.is_live(pos),
        queue.awaits::<D>(pos, res, after),
        res is Done,
    ensures
        crate::wait::is_ready(queue.awaited(pos).seq, queue.awaited_flag(pos), queue.writers),
{
    lemma_ready(queue, pos);
}

/// Whatever a receiver can wait for, the one who brings it about calls the receivers: a sender
/// that sends where receivers sleep, and every sender that leaves.
pub proof fn lemma_receivers_called<T>(
    before: QueueView<T>,
    token: usize,
    val: T,
    res: Result<(), TrySendError<T>>,
    after: QueueView<T>,
)
    requires
        before.sends(token, val, res, after),
    ensures
        res is Ok && before.needs_notify ==> after.wake,
        before.wake ==> after.wake,
        before.without_writer(token).wake,
{
}

} // verus!
