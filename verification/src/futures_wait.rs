//! How tasks wait: instead of a thread that sleeps, a task is parked, and called later.
use vstd::prelude::*;

use crate::errors::{SendError, TrySendError};
use crate::inline::InlineTasks;
use crate::wait::{check, Stage, DEFAULT_TRY_SPINS, DEFAULT_YIELD_SPINS};

verus! {

/// Up to so many tasks are called after the list of parked tasks is free again; more are called
/// before that.
pub const MAX_INLINE: usize = 8;

/// The tasks that are to be called.
pub enum Wakeup {
    /// None.
    Nobody,
    /// These, while the list of parked tasks is kept.
    Kept(Vec<u64>),
    /// These, when the list of parked tasks is free again.
    Freed(InlineTasks),
}

impl View for Wakeup {
    type V = Seq<u64>;

    open spec fn view(&self) -> Seq<u64> {
        match *self {
            Wakeup::Nobody => Seq::empty(),
            Wakeup::Kept(tasks) => tasks@,
            Wakeup::Freed(tasks) => tasks@,
        }
    }
}

impl Wakeup {
    /// Whether the tasks are to be called while the list of parked tasks is kept.
    pub fn keeps_list(&self) -> (res: bool)
        ensures
            res == (self is Kept),
    {
        match self {
            Wakeup::Kept(_) => true,
            _ => false,
        }
    }

    /// The tasks, in the order in which they are to be called.
    pub fn into_tasks(self) -> (res: Vec<u64>)
        ensures
            res@ == self@,
    {
        match self {
            Wakeup::Nobody => Vec::new(),
            Wakeup::Kept(tasks) => tasks,
            Wakeup::Freed(tasks) => tasks.into_tasks(),
        }
    }
}

/// What came of a look while spinning.
#[derive(Clone, Copy, Debug, PartialEq, Eq, Structural)]
pub enum Spin {
    /// There is no reason to wait any longer.
    Ready,
    /// There is, and this is to be done before the next look.
    Again(Stage),
}

/// What came of a look of a task that waits for a value.
#[derive(Clone, Copy, Debug, PartialEq, Eq, Structural)]
pub enum WaitStep {
    /// There is no reason to wait any longer.
    Ready,
    /// There is, and this is to be done before the next look.
    Again(Stage),
    /// There is, and the task was parked.
    Parked,
}

/// What came of one try of a task to send a value.
pub enum SendStep<T> {
    /// The value was sent.
    Ready,
    /// There is no room, and the task was parked.
    NotReady(T),
    /// There is no room; this is to be done before the next try.
    Again(Stage, T),
    /// No stream is left.
    Failed(SendError<T>),
}

impl<T> SendStep<T> {
    /// What came of it, as a sender is told.
    pub open spec fn outcome(self) -> Result<(), TrySendError<T>> {
        match self {
            SendStep::Ready => Ok(()),
            SendStep::NotReady(val) => Err(TrySendError::Full(val)),
            SendStep::Again(_, val) => Err(TrySendError::Full(val)),
            SendStep::Failed(err) => Err(TrySendError::Disconnected(err.0)),
        }
    }
}

/// The state of a `FuturesWait`.
#[verifier::ext_equal]
pub struct ParkView {
    /// How many looks come without a pause.
    pub first: usize,
    /// How many looks come after that with other threads let run before each.
    pub yields: usize,
    /// The tasks that are parked, oldest first.
    pub parked: Seq<u64>,
}

impl ParkView {
    /// What is done before the look that comes `n` looks after the first. The last look is made
    /// with the list of parked tasks kept.
    pub open spec fn stage(self, n: nat) -> Stage {
        if n < self.first {
            Stage::Spin(n as usize)
        } else if n < self.first + self.yields {
            Stage::Yield((n - self.first) as usize)
        } else {
            Stage::Lock
        }
    }

    /// A task was parked.
    pub open spec fn with_task(self, task: u64) -> ParkView {
        ParkView { parked: self.parked.push(task), ..self }
    }

    /// All tasks were taken out.
    pub open spec fn emptied(self) -> ParkView {
        ParkView { parked: Seq::empty(), ..self }
    }
}

/// The tasks that wait, and how often they look before they are parked.
pub struct FuturesWait {
    spins_first: usize,
    spins_yield: usize,
    parked: Vec<u64>,
}

impl View for FuturesWait {
    type V = ParkView;

    closed spec fn view(&self) -> ParkView {
        ParkView { first: self.spins_first, yields: self.spins_yield, parked: self.parked@ }
    }
}

impl FuturesWait {
    /// No tasks, and the usual numbers.
    pub fn new() -> (res: FuturesWait)
        ensures
            res@ == (ParkView {
                first: DEFAULT_TRY_SPINS,
                yields: DEFAULT_YIELD_SPINS,
                parked: Seq::empty(),
            }),
    {
        FuturesWait::with_spins(DEFAULT_TRY_SPINS, DEFAULT_YIELD_SPINS)
    }

    /// No tasks, and `spins_first` looks without a pause before `spins_yield` looks with other
    /// threads let run before each.
    pub fn with_spins(spins_first: usize, spins_yield: usize) -> (res: FuturesWait)
        ensures
            res@ == (ParkView { first: spins_first, yields: spins_yield, parked: Seq::empty() }),
    {
        FuturesWait { spins_first, spins_yield, parked: Vec::new() }
    }

    /// The same numbers without any task.
    pub fn clone(&self) -> (res: FuturesWait)
        ensures
            res@ == self@.emptied(),
    {
        FuturesWait::with_spins(self.spins_first, self.spins_yield)
    }

    /// How many tasks are parked.
    pub fn len(&self) -> (res: usize)
        ensures
            res == self@.parked.len(),
    {
        self.parked.len()
    }

    /// What is done before the first look.
    pub fn start(&self) -> (res: Stage)
        ensures
            res == self@.stage(0),
    {
        if self.spins_first > 0 {
            Stage::Spin(0)
        } else if self.spins_yield > 0 {
            Stage::Yield(0)
        } else {
            Stage::Lock
        }
    }

    /// What is done before the next look, after one for which `stage` was done.
    pub fn after(&self, stage: Stage) -> (res: Stage)
        requires
            exists|n: nat| stage == #[trigger] self@.stage(n),
        ensures
            forall|n: nat| stage == #[trigger] self@.stage(n) ==> res == self@.stage(n + 1),
    {
        match stage {
            Stage::Spin(done) => {
                if done < self.spins_first - 1 {
                    Stage::Spin(done + 1)
                } else if self.spins_yield > 0 {
                    Stage::Yield(0)
                } else {
                    Stage::Lock
                }
            },
            Stage::Yield(done) => {
                if done < self.spins_yield - 1 {
                    Stage::Yield(done + 1)
                } else {
                    Stage::Lock
                }
            },
            _ => Stage::Lock,
        }
    }

    /// Looks once for the value with count `seq`, when the flag of its slot is `at` and there are
    /// `wc` senders. This is for all looks but the last, which is that of `park`.
    pub fn spin(&self, stage: Stage, seq: usize, at: usize, wc: usize) -> (res: Spin)
        requires
            exists|n: nat| stage == #[trigger] self@.stage(n),
        ensures
            crate::wait::is_ready(seq, at, wc) ==> res is Ready,
            !crate::wait::is_ready(seq, at, wc) ==> (res matches Spin::Again(next) && forall|n: nat| stage
                == #[trigger] self@.stage(n) ==> next == self@.stage(n + 1)),
    {
        if check(seq, at, wc) {
            Spin::Ready
        } else {
            Spin::Again(self.after(stage))
        }
    }

    /// Looks for the last time, and parks a task if there is a reason to wait. Says whether it
    /// did.
    pub fn park(&mut self, seq: usize, at: usize, wc: usize, task: u64) -> (res: bool)
        ensures
            res == !crate::wait::is_ready(seq, at, wc),
            final(self)@ == if res {
                old(self)@.with_task(task)
            } else {
                old(self)@
            },
    {
        if check(seq, at, wc) {
            return false;
        }
        self.push(task);
        true
    }

    /// Looks once for the value with count `seq`, after what `stage` asks for, when the flag of its
    /// slot is `at` and there are `wc` senders. In the last look, parks the task if there is a
    /// reason to wait.
    pub fn fut_wait(&mut self, stage: Stage, seq: usize, at: usize, wc: usize, task: u64) -> (res: WaitStep)
        requires
            exists|n: nat| stage == #[trigger] old(self)@.stage(n),
        ensures
            res is Ready <==> crate::wait::is_ready(seq, at, wc),
            res is Parked <==> !crate::wait::is_ready(seq, at, wc) && stage == Stage::Lock,
            res matches WaitStep::Again(next) ==> forall|n: nat| stage == #[trigger] old(self)@.stage(n) ==> next
                == old(self)@.stage(n + 1),
            final(self)@ == if res is Parked {
                old(self)@.with_task(task)
            } else {
                old(self)@
            },
    {
        if stage == Stage::Lock {
            if self.park(seq, at, wc, task) {
                WaitStep::Parked
            } else {
                WaitStep::Ready
            }
        } else {
            match self.spin(stage, seq, at, wc) {
                Spin::Ready => WaitStep::Ready,
                Spin::Again(next) => WaitStep::Again(next),
            }
        }
    }

    /// Decides what to do after a try to send, for which `stage` was done. If there was no room, in
    /// the last try, parks the task.
    pub fn send_or_park<T>(
        &mut self,
        stage: Stage,
        tried: Result<(), TrySendError<T>>,
        task: u64,
    ) -> (res: SendStep<T>)
        requires
            exists|n: nat| stage == #[trigger] old(self)@.stage(n),
        ensures
            tried is Ok <==> res is Ready,
            tried is Err ==> res.outcome() == tried,
            res is NotReady <==> (tried is Err && tried->Err_0 is Full && stage == Stage::Lock),
            res is Again ==> forall|n: nat| stage == #[trigger] old(self)@.stage(n) ==> res->Again_0 == old(
                self,
            )@.stage(n + 1),
            final(self)@ == if res is NotReady {
                old(self)@.with_task(task)
            } else {
                old(self)@
            },
    {
        match tried {
            Ok(_) => SendStep::Ready,
            Err(TrySendError::Full(val)) => {
                if stage == Stage::Lock {
                    self.push(task);
                    SendStep::NotReady(val)
                } else {
                    SendStep::Again(self.after(stage), val)
                }
            },
            Err(TrySendError::Disconnected(val)) => SendStep::Failed(SendError(val)),
        }
    }

    /// Parks a task.
    pub fn push(&mut self, task: u64)
        ensures
            final(self)@ == old(self)@.with_task(task),
    {
        self.parked.push(task);
        proof {
            assert(self@ =~= old(self)@.with_task(task));
        }
    }

    /// Takes out all tasks, to be called.
    pub fn notify(&mut self) -> (res: Wakeup)
        ensures
            res@ == old(self)@.parked,
            res is Nobody <==> old(self)@.parked.len() == 0,
            res is Kept <==> old(self)@.parked.len() > MAX_INLINE,
            final(self)@ == old(self)@.emptied(),
    {
        let mut tasks: Vec<u64> = Vec::new();
        core::mem::swap(&mut tasks, &mut self.parked);
        proof {
            assert(self@ =~= old(self)@.emptied());
        }
        if tasks.len() > 0 {
            if tasks.len() > MAX_INLINE {
                Wakeup::Kept(tasks)
            } else {
                Wakeup::Freed(InlineTasks::of(tasks))
            }
        } else {
            proof {
                assert(tasks@ =~= Seq::<u64>::empty());
            }
            Wakeup::Nobody
        }
    }

    /// Whether senders have to call tasks.
    pub fn needs_notify(&self) -> (res: bool)
        ensures
            res,
    {
        true
    }
}

/// The looks come to an end: after all that are made in passing, the list of parked tasks is kept
/// for the last one.
pub proof fn lemma_looks_end(wait: ParkView, n: nat)
    requires
        n >= wait.first + wait.yields,
    ensures
        wait.stage(n) == Stage::Lock,
{
}

/// A task looks as often as it was told without a pause, then as often as it was told with a pause
/// before each look, and then for the last time.
pub proof fn lemma_looks(wait: ParkView, n: nat)
    ensures
        n < wait.first ==> wait.stage(n) == Stage::Spin(n as usize),
        n < wait.yields ==> wait.stage(wait.first as nat + n) == Stage::Yield(n as usize),
        wait.stage(wait.first as nat + wait.yields as nat + n) == Stage::Lock,
{
}

/// Tasks are kept in the order in which they were parked, each as often as it was, and all of them are
/// taken out together.
pub proof fn lemma_parked_in_order(states: Seq<ParkView>, tasks: Seq<u64>)
    requires
        states.len() == tasks.len() + 1,
        forall|i: int| 0 <= i < tasks.len() ==> states[i + 1] == states[i].with_task(#[trigger] tasks[i]),
    ensures
        states.last().parked == states[0].parked + tasks,
        states.last().first == states[0].first,
        states.last().yields == states[0].yields,
        states.last().emptied().parked.len() == 0,
        states.last().emptied().first == states[0].first,
        states.last().emptied().yields == states[0].yields,
    decreases tasks.len(),
{
    if tasks.len() > 0 {
        let n = tasks.len() - 1;
        assert(states[n + 1] == states[n].with_task(tasks[n]));
        assert forall|i: int| 0 <= i < tasks.drop_last().len() implies states.drop_last()[i + 1]
            == states.drop_last()[i].with_task(#[trigger] tasks.drop_last()[i]) by {
            assert(states[i + 1] == states[i].with_task(tasks[i]));
        }
        lemma_parked_in_order(states.drop_last(), tasks.drop_last());
        assert(states.drop_last().last() == states[n]);
        assert(states[0].parked + tasks =~= (states[0].parked + tasks.drop_last()).push(tasks[n]));
    } else {
        assert(states[0].parked + tasks =~= states[0].parked);
    }
}

/// What is handed out are the tasks that were taken out, whichever way they are handed out.
pub proof fn lemma_handed_out(tasks: Vec<u64>, list: InlineTasks)
    ensures
        Wakeup::Nobody@.len() == 0,
        Wakeup::Kept(tasks)@ == tasks@,
        Wakeup::Freed(list)@ == crate::inline::inline_contents(list),
{
}

} // verus!
