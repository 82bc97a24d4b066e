//! How receivers wait makes no difference to what a queue answers.
//!
//! A strategy decides whether senders call the receivers, and nothing else. Two queues that differ
//! in that alone answer the same calls alike, one after the other.
use vstd::prelude::*;

use crate::countedindex::Index;
use crate::errors::{RecvError, TryRecvError, TrySendError};
use crate::model::QueueView;
use crate::multiqueue::{DoDrop, MultiQueue};
use crate::receiver::Receiver;
use crate::sender::Sender;
use crate::wait::Blocking;

verus! {

/// What is asked of a queue.
pub enum Call<T> {
    /// To send a value.
    Send(T),
    /// To receive from a stream.
    Recv(usize),
    /// To receive from a stream, where the receiver waits.
    Await(usize),
    /// To have one more sender.
    AddSender,
    /// To have one sender less.
    RemoveSender,
    /// To have one more consumer of a stream.
    AddConsumer(usize),
    /// To have one consumer of a stream less.
    RemoveConsumer(usize),
}

/// What a queue answers.
pub enum Answer<T> {
    /// Why nothing was sent, if nothing was.
    Sent(Option<TrySendError<T>>),
    /// What was received.
    Received(Result<T, TryRecvError>),
    /// What was received, or is waited for.
    Awaited(Blocking<Result<T, RecvError>>),
    /// Nothing.
    Silence,
}

/// Why nothing was sent, if nothing was.
pub open spec fn refusal<T>(res: Result<(), TrySendError<T>>) -> Option<TrySendError<T>> {
    match res {
        Ok(_) => None,
        Err(e) => Some(e),
    }
}

/// `answer` and `after` are what comes of a call to a queue, from whichever handle.
pub open spec fn answers<D: DoDrop<T>, T>(
    before: QueueView<T>,
    call: Call<T>,
    answer: Answer<T>,
    after: QueueView<T>,
) -> bool {
    match call {
        Call::Send(val) => exists|token: usize, res: Result<(), TrySendError<T>>| #[trigger]
            before.sends(token, val, res, after) && answer == Answer::Sent(refusal(res)),
        Call::Recv(pos) => {
            &&& before.is_live(pos)
            &&& answer matches Answer::Received(res) && exists|token: usize|
                (#[trigger] before.attended(token)).receives::<D>(pos, res, after)
        },
        Call::Await(pos) => {
            &&& before.is_live(pos)
            &&& answer matches Answer::Awaited(res) && exists|token: usize|
                (#[trigger] before.attended(token)).awaits::<D>(pos, res, after)
        },
        Call::AddSender => {
            &&& answer is Silence
            &&& exists|token: usize| after == #[trigger] before.with_writer(token)
        },
        Call::RemoveSender => {
            &&& answer is Silence
            &&& exists|token: usize| after == #[trigger] before.without_writer(token)
        },
        Call::AddConsumer(pos) => {
            &&& before.is_live(pos)
            &&& answer is Silence
            &&& exists|token: usize| after == #[trigger] before.with_consumer(pos).with_token(token)
        },
        Call::RemoveConsumer(pos) => {
            &&& before.is_live(pos)
            &&& answer is Silence
            &&& exists|token: usize| after == #[trigger] before.left_by(pos, token)
        },
    }
}

/// The call to the other queue that is meant, when `pairs` names the streams there.
pub open spec fn renamed<T>(call: Call<T>, pairs: Map<usize, usize>) -> Call<T> {
    match call {
        Call::Recv(pos) => Call::Recv(pairs[pos]),
        Call::Await(pos) => Call::Await(pairs[pos]),
        Call::AddConsumer(pos) => Call::AddConsumer(pairs[pos]),
        Call::RemoveConsumer(pos) => Call::RemoveConsumer(pairs[pos]),
        _ => call,
    }
}

/// Two queues are alike, when `pairs` names the stream of the second for each of the first. They
/// may differ in who is to be called, in what senders have seen of the slowest stream, in the places
/// where streams are kept, and in what waits to be released.
pub open spec fn alike<T>(one: QueueView<T>, other: QueueView<T>, pairs: Map<usize, usize>) -> bool {
    &&& other.capacity == one.capacity
    &&& other.log == one.log
    &&& other.writers == one.writers
    &&& forall|pos: usize| #[trigger] one.is_live(pos) ==> same_stream(one, pos, other, pairs[pos])
    &&& forall|to: usize| #[trigger]
        other.is_live(to) ==> exists|pos: usize| #[trigger] one.is_live(pos) && pairs[pos] == to
    &&& forall|p: usize, q: usize|
        #![trigger one.is_live(p), one.is_live(q)]
        one.is_live(p) && one.is_live(q) && p != q ==> pairs[p] != pairs[q]
}

/// A stream of one queue is like a stream of another.
pub open spec fn same_stream<T>(one: QueueView<T>, pos: usize, other: QueueView<T>, to: usize) -> bool {
    &&& other.is_live(to)
    &&& other.positions[to] == one.positions[pos]
    &&& other.cursor.streams[to].consumers == one.cursor.streams[pos].consumers
}

/// Two answers to a call agree: they are the same, but for two values that were received, which
/// are got from the same value in the queue.
pub open spec fn agree<D: DoDrop<T>, T>(
    before: QueueView<T>,
    call: Call<T>,
    one: Answer<T>,
    other: Answer<T>,
) -> bool {
    ||| one == other
    ||| {
        &&& call matches Call::Recv(pos)
        &&& one matches Answer::Received(Ok(a))
        &&& other matches Answer::Received(Ok(b))
        &&& D::delivers(before.next_value(pos), a)
        &&& D::delivers(before.next_value(pos), b)
    }
    ||| {
        &&& call matches Call::Await(pos)
        &&& one matches Answer::Awaited(Blocking::Done(Ok(a)))
        &&& other matches Answer::Awaited(Blocking::Done(Ok(b)))
        &&& D::delivers(before.next_value(pos), a)
        &&& D::delivers(before.next_value(pos), b)
    }
}

/// What is received is determined by what is in the queue. It is where values are moved out, and
/// where all clones of a value are the same.
pub open spec fn is_definite<D: DoDrop<T>, T>() -> bool {
    forall|stored: T, a: T, b: T|
        #![trigger D::delivers(stored, a), D::delivers(stored, b)]
        D::delivers(stored, a) && D::delivers(stored, b) ==> a == b
}

/// Queues that are alike have the same bounds.
proof fn lemma_same_bounds<T>(one: QueueView<T>, other: QueueView<T>, pairs: Map<usize, usize>)
    requires
        alike(one, other, pairs),
    ensures
        other.is_deserted() == one.is_deserted(),
        other.is_full() == one.is_full(),
{
    if !one.is_deserted() {
        if forall|pos: usize| !one.is_live(pos) {
            assert(one.positions.dom() =~= Set::<usize>::empty());
        }
        let pos = choose|pos: usize| one.is_live(pos);
        assert(other.is_live(pairs[pos]));
    } else {
        assert(other.positions.dom() =~= Set::<usize>::empty()) by {
            assert forall|to: usize| !other.positions.dom().contains(to) by {
                if other.is_live(to) {
                    let pos = choose|pos: usize| #[trigger] one.is_live(pos) && pairs[pos] == to;
                    assert(one.is_live(pos));
                }
            }
        }
    }
    if one.is_full() {
        let pos = choose|pos: usize| #[trigger] one.is_live(pos) && one.backlog(pos) == one.capacity;
        assert(same_stream(one, pos, other, pairs[pos]));
        assert(other.is_live(pairs[pos]) && other.backlog(pairs[pos]) == other.capacity);
    }
    if other.is_full() {
        let to = choose|to: usize| #[trigger] other.is_live(to) && other.backlog(to) == other.capacity;
        let pos = choose|pos: usize| #[trigger] one.is_live(pos) && pairs[pos] == to;
        assert(same_stream(one, pos, other, pairs[pos]));
        assert(one.is_live(pos) && one.backlog(pos) == one.capacity);
    }
}

/// Whether the streams of two queues are alike depends on the streams only.
proof fn lemma_same_streams<T>(
    one: QueueView<T>,
    other: QueueView<T>,
    one_after: QueueView<T>,
    other_after: QueueView<T>,
    pairs: Map<usize, usize>,
)
    requires
        alike(one, other, pairs),
        one_after.positions == one.positions,
        other_after.positions == other.positions,
        one_after.cursor == one.cursor,
        other_after.cursor == other.cursor,
        other_after.capacity == one_after.capacity,
        other_after.log == one_after.log,
        other_after.writers == one_after.writers,
    ensures
        alike(one_after, other_after, pairs),
{
    assert forall|pos: usize| #[trigger] one_after.is_live(pos) implies same_stream(
        one_after,
        pos,
        other_after,
        pairs[pos],
    ) by {
        assert(same_stream(one, pos, other, pairs[pos]));
    }
    assert forall|to: usize| #[trigger] other_after.is_live(to) implies exists|pos: usize| #[trigger]
        one_after.is_live(pos) && pairs[pos] == to by {
        assert(other.is_live(to));
        let pos = choose|pos: usize| #[trigger] one.is_live(pos) && pairs[pos] == to;
        assert(one_after.is_live(pos));
    }
}

/// Queues that are alike answer a call alike, and are alike after it.
pub proof fn lemma_answers_alike<D: DoDrop<T>, T>(
    one: QueueView<T>,
    other: QueueView<T>,
    pairs: Map<usize, usize>,
    call: Call<T>,
    one_says: Answer<T>,
    other_says: Answer<T>,
    one_after: QueueView<T>,
    other_after: QueueView<T>,
)
    requires
        alike(one, other, pairs),
        answers::<D, T>(one, call, one_says, one_after),
        answers::<D, T>(other, renamed(call, pairs), other_says, other_after),
    ensures
        agree::<D, T>(one, call, one_says, other_says),
        is_definite::<D, T>() ==> one_says == other_says,
        alike(one_after, other_after, pairs),
{
    match call {
        Call::Send(_) => {
            lemma_same_bounds(one, other, pairs);
            lemma_same_streams(one, other, one_after, other_after, pairs);
        },
        Call::AddSender | Call::RemoveSender => {
            lemma_same_streams(one, other, one_after, other_after, pairs);
        },
        Call::Recv(pos) | Call::Await(pos) | Call::AddConsumer(pos) | Call::RemoveConsumer(pos) => {
            assert(same_stream(one, pos, other, pairs[pos]));
        },
    }
    assert forall|to: usize| #[trigger] other_after.is_live(to) implies exists|pos: usize| #[trigger]
        one_after.is_live(pos) && pairs[pos] == to by {
        assert(other.is_live(to));
        let pos = choose|pos: usize| #[trigger] one.is_live(pos) && pairs[pos] == to;
        assert(one_after.is_live(pos));
    }
}

/// A queue goes from each of the states to the next, as it answers the calls one after the other.
pub open spec fn answers_all<D: DoDrop<T>, T>(
    states: Seq<QueueView<T>>,
    calls: Seq<Call<T>>,
    says: Seq<Answer<T>>,
) -> bool {
    &&& states.len() == calls.len() + 1
    &&& says.len() == calls.len()
    &&& forall|i: int|
        0 <= i < calls.len() ==> answers::<D, T>(states[i], #[trigger] calls[i], says[i], states[i + 1])
}

/// The first of the calls are answered, too.
proof fn lemma_front<D: DoDrop<T>, T>(states: Seq<QueueView<T>>, calls: Seq<Call<T>>, says: Seq<Answer<T>>)
    requires
        answers_all::<D, T>(states, calls, says),
        calls.len() > 0,
    ensures
        answers_all::<D, T>(states.drop_last(), calls.drop_last(), says.drop_last()),
{
    let (a, b, c) = (states.drop_last(), calls.drop_last(), says.drop_last());
    assert forall|i: int| 0 <= i < b.len() implies answers::<D, T>(a[i], #[trigger] b[i], c[i], a[i + 1]) by {
        assert(answers::<D, T>(states[i], calls[i], says[i], states[i + 1]));
    }
}

/// The calls to the other queue that are meant, when `pairs` names the streams there.
pub open spec fn all_renamed<T>(calls: Seq<Call<T>>, pairs: Map<usize, usize>) -> Seq<Call<T>> {
    Seq::new(calls.len(), |i: int| renamed(calls[i], pairs))
}

/// Queues that are alike give the same answers to the same calls, call by call, for as long as
/// they are asked.
pub proof fn lemma_always_alike<D: DoDrop<T>, T>(
    one: Seq<QueueView<T>>,
    other: Seq<QueueView<T>>,
    pairs: Map<usize, usize>,
    calls: Seq<Call<T>>,
    one_says: Seq<Answer<T>>,
    other_says: Seq<Answer<T>>,
)
    requires
        answers_all::<D, T>(one, calls, one_says),
        answers_all::<D, T>(other, all_renamed(calls, pairs), other_says),
        alike(one[0], other[0], pairs),
    ensures
        forall|i: int|
            0 <= i < calls.len() ==> agree::<D, T>(one[i], #[trigger] calls[i], one_says[i], other_says[i]),
        is_definite::<D, T>() ==> one_says == other_says,
        alike(one.last(), other.last(), pairs),
    decreases calls.len(),
{
    if calls.len() > 0 {
        let n = calls.len() - 1;
        let there = all_renamed(calls, pairs);
        lemma_front::<D, T>(one, calls, one_says);
        lemma_front::<D, T>(other, there, other_says);
        assert(all_renamed(calls.drop_last(), pairs) =~= there.drop_last());
        lemma_always_alike::<D, T>(
            one.drop_last(),
            other.drop_last(),
            pairs,
            calls.drop_last(),
            one_says.drop_last(),
            other_says.drop_last(),
        );
        assert(answers::<D, T>(one[n], calls[n], one_says[n], one[n + 1]));
        assert(answers::<D, T>(other[n], there[n], other_says[n], other[n + 1]));
        lemma_answers_alike::<D, T>(
            one[n],
            other[n],
            pairs,
            calls[n],
            one_says[n],
            other_says[n],
            one[n + 1],
            other[n + 1],
        );
        assert forall|i: int| 0 <= i < calls.len() implies agree::<D, T>(
            one[i],
            #[trigger] calls[i],
            one_says[i],
            other_says[i],
        ) by {
            if i < n {
                assert(agree::<D, T>(
                    one.drop_last()[i],
                    calls.drop_last()[i],
                    one_says.drop_last()[i],
                    other_says.drop_last()[i],
                ));
            }
        }
        if is_definite::<D, T>() {
            assert forall|i: int| 0 <= i < calls.len() implies one_says[i] == other_says[i] by {
                if i < n {
                    assert(one_says[i] == one_says.drop_last()[i]);
                    assert(other_says[i] == other_says.drop_last()[i]);
                }
            }
            assert(one_says =~= other_says);
        }
    }
}

/// New queues that are asked for with the same capacity are alike, whether or not their receivers
/// sleep while they wait.
pub proof fn lemma_new_alike<D: DoDrop<T>, T>(
    one: (MultiQueue<D, T>, Sender<D, T>, Receiver<D, T>),
    other: (MultiQueue<D, T>, Sender<D, T>, Receiver<D, T>),
    capacity: Index,
    one_sleeps: bool,
    other_sleeps: bool,
)
    requires
        MultiQueue::<D, T>::is_new(one, capacity, one_sleeps),
        MultiQueue::<D, T>::is_new(other, capacity, other_sleeps),
    ensures
        alike(one.0@, other.0@, Map::empty().insert(one.2.pos(), other.2.pos())),
{
    let a = one.0@.capacity as int;
    let b = other.0@.capacity as int;
    assert(crate::countedindex::is_power(a) && crate::countedindex::is_power(b));
    assert(one.0@.is_live(one.2.pos()));
}

/// How receivers wait makes no difference to what a queue answers: queues of the same capacity,
/// each made for any strategy, give the same answers to the same calls from the start.
pub proof fn lemma_strategies_agree<D: DoDrop<T>, T>(
    one: (MultiQueue<D, T>, Sender<D, T>, Receiver<D, T>),
    other: (MultiQueue<D, T>, Sender<D, T>, Receiver<D, T>),
    capacity: Index,
    one_sleeps: bool,
    other_sleeps: bool,
    one_states: Seq<QueueView<T>>,
    other_states: Seq<QueueView<T>>,
    calls: Seq<Call<T>>,
    one_says: Seq<Answer<T>>,
    other_says: Seq<Answer<T>>,
)
    requires
        MultiQueue::<D, T>::is_new(one, capacity, one_sleeps),
        MultiQueue::<D, T>::is_new(other, capacity, other_sleeps),
        one_states[0] == one.0@,
        other_states[0] == other.0@,
        answers_all::<D, T>(one_states, calls, one_says),
        answers_all::<D, T>(
            other_states,
            all_renamed(calls, Map::empty().insert(one.2.pos(), other.2.pos())),
            other_says,
        ),
    ensures
        forall|i: int|
            0 <= i < calls.len() ==> agree::<D, T>(
                one_states[i],
                #[trigger] calls[i],
                one_says[i],
                other_says[i],
            ),
        is_definite::<D, T>() ==> one_says == other_says,
{
    lemma_new_alike(one, other, capacity, one_sleeps, other_sleeps);
    lemma_always_alike::<D, T>(
        one_states,
        other_states,
        Map::empty().insert(one.2.pos(), other.2.pos()),
        calls,
        one_says,
        other_says,
    );
}

/// A queue that hands the values themselves out is definite in what it answers.
pub proof fn lemma_moves_are_definite<T>()
    ensures
        is_definite::<crate::multiqueue::MPMC<T>, T>(),
{
}

} // verus!
