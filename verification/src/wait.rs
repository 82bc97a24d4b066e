//! How receivers wait when there is nothing to receive.
//!
//! A receiver that waits looks at its slot over and over. A strategy says what is done before
//! each look.
use vstd::prelude::*;

use crate::countedindex::{past_by, rm_tag, MAX_WRAP};

verus! {

/// How often a strategy looks with a yield before each look, if not told otherwise.
pub const DEFAULT_YIELD_SPINS: usize = 50;

/// How often a strategy looks without a pause, if not told otherwise.
pub const DEFAULT_TRY_SPINS: usize = 1000;

/// There is no reason to wait for count `seq` any longer, when the flag of its slot is `at` and
/// there are `wc` senders: no sender is left, or the value is there, or the slot has moved past
/// it, as far as the counts tell.
pub open spec fn is_ready(seq: usize, at: usize, wc: usize) -> bool {
    let cur = crate::countedindex::untagged(at as int);
    ||| wc == 0
    ||| seq == cur
    ||| crate::countedindex::lead(seq, cur) > MAX_WRAP
}

/// The count in a flag.
pub fn load_tagless(val: usize) -> (res: usize)
    ensures
        res == crate::countedindex::untagged(val as int),
{
    rm_tag(val)
}

/// Whether there is no reason to wait for count `seq` any longer.
pub fn check(seq: usize, at: usize, wc: usize) -> (res: bool)
    ensures
        res == is_ready(seq, at, wc),
{
    let cur_count: usize = load_tagless(at);
    wc == 0 || seq == cur_count || past_by(seq, cur_count).1
}

/// What a receiver waits for: the value with count `seq`, which comes at `slot`.
#[derive(Clone, Copy, Debug, PartialEq, Eq, Structural)]
pub struct WaitOn {
    pub seq: usize,
    pub slot: usize,
}

/// What comes of something that may have to wait.
#[derive(Debug, PartialEq, Eq)]
pub enum Blocking<R> {
    /// It is done.
    Done(R),
    /// It can go on when there is no reason to wait any longer.
    Wait(WaitOn),
}

impl<R> Blocking<R> {
    /// What came of it, if it is done.
    pub fn done(self) -> (res: Option<R>)
        ensures
            res == match self {
                Blocking::Done(val) => Some(val),
                Blocking::Wait(_) => None::<R>,
            },
    {
        match self {
            Blocking::Done(val) => Some(val),
            Blocking::Wait(_) => None,
        }
    }
}

/// What is done before a look.
#[derive(Clone, Copy, Debug, PartialEq, Eq, Structural)]
pub enum Stage {
    /// Nothing. This is so many looks after the first.
    Spin(usize),
    /// Other threads are let run. This is so many looks after the first that has this pause.
    Yield(usize),
    /// Nothing. This is so many looks after the last that had a pause.
    Batch(usize),
    /// The lock of the receivers is taken.
    Lock,
    /// The receiver sleeps until it is called, and gives the lock back.
    Block,
}

/// A strategy for waiting.
pub trait Wait {
    /// What is done before the look that comes `n` looks after the first.
    spec fn stage(&self, n: nat) -> Stage;

    /// Sleeping receivers have to be called.
    spec fn sleeps(&self) -> bool;

    /// What is done before the first look.
    fn start(&self) -> (res: Stage)
        ensures
            res == self.stage(0),
    ;

    /// What is done next, after a look for which `stage` was done.
    fn wait(&self, stage: Stage) -> (res: Stage)
        requires
            exists|n: nat| stage == #[trigger] self.stage(n),
        ensures
            forall|n: nat| stage == #[trigger] self.stage(n) ==> res == self.stage(n + 1),
    ;

    /// Whether sleeping receivers have to be called when something was sent.
    fn notify(&self) -> (res: bool)
        ensures
            res == self.sleeps(),
    ;

    /// Whether senders have to call `notify`.
    fn needs_notify(&self) -> (res: bool)
        ensures
            res == self.sleeps(),
    ;
}

/// Looks without any pause.
#[derive(Clone, Copy, Debug, PartialEq, Eq, Structural)]
pub struct BusyWait {}

/// Looks without any pause at first, and later lets other threads run from time to time.
#[derive(Clone, Copy, Debug, PartialEq, Eq, Structural)]
pub struct YieldingWait {
    spins_first: usize,
    spins_yield: usize,
}

/// Looks without any pause at first, then lets other threads run before each look, then sleeps.
#[derive(Clone, Copy, Debug, PartialEq, Eq, Structural)]
pub struct BlockingWait {
    spins_first: usize,
    spins_yield: usize,
}

impl BusyWait {
    /// The strategy.
    pub fn new() -> BusyWait {
        BusyWait {  }
    }
}

impl YieldingWait {
    /// How many looks come before the first pause.
    pub closed spec fn first(&self) -> usize {
        self.spins_first
    }

    /// How many looks come after each pause. There is one in any case.
    pub closed spec fn batch(&self) -> usize {
        self.spins_yield
    }

    /// The strategy with the usual numbers.
    pub fn new() -> (res: YieldingWait)
        ensures
            res.first() == DEFAULT_TRY_SPINS,
            res.batch() == DEFAULT_YIELD_SPINS,
    {
        YieldingWait::with_spins(DEFAULT_TRY_SPINS, DEFAULT_YIELD_SPINS)
    }

    /// The strategy with `spins_first` looks before the first pause, and `spins_yield` after
    /// each, but at least one.
    pub fn with_spins(spins_first: usize, spins_yield: usize) -> (res: YieldingWait)
        ensures
            res.first() == spins_first,
            res.batch() == spins_yield,
    {
        YieldingWait { spins_first, spins_yield }
    }
}

impl BlockingWait {
    /// How many looks come without a pause.
    pub closed spec fn first(&self) -> usize {
        self.spins_first
    }

    /// How many looks come after that with other threads let run before each.
    pub closed spec fn yields(&self) -> usize {
        self.spins_yield
    }

    /// The strategy with the usual numbers.
    pub fn new() -> (res: BlockingWait)
        ensures
            res.first() == DEFAULT_TRY_SPINS,
            res.yields() == DEFAULT_YIELD_SPINS,
    {
        BlockingWait::with_spins(DEFAULT_TRY_SPINS, DEFAULT_YIELD_SPINS)
    }

    /// The strategy with `spins_first` looks without a pause, and then `spins_yield` looks with
    /// other threads let run before each.
    pub fn with_spins(spins_first: usize, spins_yield: usize) -> (res: BlockingWait)
        ensures
            res.first() == spins_first,
            res.yields() == spins_yield,
    {
        BlockingWait { spins_first, spins_yield }
    }
}

impl Wait for BusyWait {
    open spec fn stage(&self, n: nat) -> Stage {
        Stage::Spin(0)
    }

    open spec fn sleeps(&self) -> bool {
        false
    }

    fn start(&self) -> (res: Stage) {
        Stage::Spin(0)
    }

    fn wait(&self, stage: Stage) -> (res: Stage) {
        stage
    }

    fn notify(&self) -> (res: bool) {
        false
    }

    fn needs_notify(&self) -> (res: bool) {
        false
    }
}

/// The remainder grows by one with the number, until it starts again at zero.
proof fn lemma_next_remainder(a: int, m: int)
    requires
        m > 0,
    ensures
        0 <= a % m < m,
        (a + 1) % m == if a % m + 1 == m {
            0
        } else {
            a % m + 1
        },
{
    vstd::arithmetic::div_mod::lemma_fundamental_div_mod(a, m);
    let q = a / m;
    if a % m + 1 == m {
        assert(a + 1 == (q + 1) * m + 0) by (nonlinear_arith)
            requires
                a == m * q + a % m,
                a % m + 1 == m,
        ;
        vstd::arithmetic::div_mod::lemma_fundamental_div_mod_converse(a + 1, m, q + 1, 0);
    } else {
        assert(a + 1 == q * m + (a % m + 1)) by (nonlinear_arith)
            requires
                a == m * q + a % m,
        ;
        vstd::arithmetic::div_mod::lemma_fundamental_div_mod_converse(a + 1, m, q, a % m + 1);
    }
}

impl Wait for YieldingWait {
    open spec fn stage(&self, n: nat) -> Stage {
        if n < self.first() {
            Stage::Spin(n as usize)
        } else if self.batch() == 0 {
            Stage::Yield(0)
        } else {
            let k = (n - self.first()) % (self.batch() as int);
            if k == 0 {
                Stage::Yield(0)
            } else {
                Stage::Batch(k as usize)
            }
        }
    }

    open spec fn sleeps(&self) -> bool {
        false
    }

    fn start(&self) -> (res: Stage) {
        proof {
            if self.batch() > 0 {
                vstd::arithmetic::div_mod::lemma_small_mod(0, self.batch() as nat);
            }
        }
        if self.spins_first > 0 {
            Stage::Spin(0)
        } else {
            Stage::Yield(0)
        }
    }

    fn wait(&self, stage: Stage) -> (res: Stage) {
        proof {
            let n = choose|n: nat| stage == #[trigger] self.stage(n);
            if n >= self.first() && self.batch() > 0 {
                lemma_next_remainder(n - self.first(), self.batch() as int);
            }
        }
        let res = match stage {
            Stage::Spin(done) => {
                if done < self.spins_first - 1 {
                    Stage::Spin(done + 1)
                } else {
                    Stage::Yield(0)
                }
            },
            Stage::Yield(_) => {
                if self.spins_yield <= 1 {
                    Stage::Yield(0)
                } else {
                    Stage::Batch(1)
                }
            },
            Stage::Batch(done) => {
                if done < self.spins_yield - 1 {
                    Stage::Batch(done + 1)
                } else {
                    Stage::Yield(0)
                }
            },
            other => other,
        };
        proof {
            assert forall|n: nat| stage == #[trigger] self.stage(n) implies res == self.stage(n + 1) by {
                if n >= self.first() && self.batch() > 0 {
                    lemma_next_remainder(n - self.first(), self.batch() as int);
                } else if self.batch() > 0 {
                    vstd::arithmetic::div_mod::lemma_small_mod(0, self.batch() as nat);
                }
            }
        }
        res
    }

    fn notify(&self) -> (res: bool) {
        false
    }

    fn needs_notify(&self) -> (res: bool) {
        false
    }
}

impl Wait for BlockingWait {
    open spec fn stage(&self, n: nat) -> Stage {
        if n < self.first() {
            Stage::Spin(n as usize)
        } else if n < self.first() + self.yields() {
            Stage::Yield((n - self.first()) as usize)
        } else if (n - self.first() - self.yields()) % 2 == 0 {
            Stage::Lock
        } else {
            Stage::Block
        }
    }

    open spec fn sleeps(&self) -> bool {
        true
    }

    fn start(&self) -> (res: Stage) {
        if self.spins_first > 0 {
            Stage::Spin(0)
        } else if self.spins_yield > 0 {
            Stage::Yield(0)
        } else {
            Stage::Lock
        }
    }

    fn wait(&self, stage: Stage) -> (res: Stage) {
        match stage {
            Stage::Spin(done) => {
                if done < self.spins_first - 1 {
                    Stage::Spin(done + 1)
                } else if self.spins_yield > 0 {
                    Stage::Yield(0)
                } else {
                    Stage::Lock
                }
            },
            Stage::Yield(done) => {
                if done < self.spins_yield - 1 {
                    Stage::Yield(done + 1)
                } else {
                    Stage::Lock
                }
            },
            Stage::Lock => Stage::Block,
            _ => Stage::Lock,
        }
    }

    fn notify(&self) -> (res: bool) {
        true
    }

    fn needs_notify(&self) -> (res: bool) {
        true
    }
}

/// A wait for place `n` is over, while there are senders, exactly when the slot was last filled for
/// that place or for a later one. A slot that was never filled ends no wait. Without senders every
/// wait is over.
pub proof fn lemma_over(n: int, last: int, wc: usize)
    requires
        0 <= n,
        0 <= last,
        -MAX_WRAP <= n - last <= MAX_WRAP,
    ensures
        ({
            let seq = crate::countedindex::untagged(n);
            let at = crate::countedindex::untagged(last);
            &&& is_ready(seq, at, wc) <==> wc == 0 || last >= n
            &&& n < MAX_WRAP ==> (is_ready(seq, crate::countedindex::INITIAL_QUEUE_FLAG, wc) <==> wc == 0)
        }),
{
    let lap = crate::countedindex::MASK_IND as int;
    crate::countedindex::lemma_lap();
    vstd::arithmetic::div_mod::lemma_mod_twice(last, lap);
    crate::countedindex::lemma_lead(n, last);
    if n != last {
        crate::countedindex::lemma_counts_differ(n, last);
    }
    if n < MAX_WRAP {
        vstd::arithmetic::div_mod::lemma_mod_multiples_vanish(1, lap - 1, lap);
        vstd::arithmetic::div_mod::lemma_mod_multiples_vanish(1, -1, lap);
        crate::countedindex::lemma_counts_differ(n, -1);
        crate::countedindex::lemma_lead(n, -1);
    }
}

/// A busy wait never pauses, and nobody has to call it.
pub proof fn lemma_busy(waiter: BusyWait, n: nat)
    ensures
        waiter.stage(n) is Spin,
        !waiter.sleeps(),
{
}

/// A yielding wait looks as often as it was told before its first pause, and as often as it was told
/// after each pause, but at least once. It never sleeps, and nobody has to call it.
pub proof fn lemma_yielding(waiter: YieldingWait, n: nat, k: nat, j: nat)
    requires
        j < waiter.batch() || j == 0,
    ensures
        ({
            let looks: nat = if waiter.batch() == 0 {
                1
            } else {
                waiter.batch() as nat
            };
            &&& n < waiter.first() ==> waiter.stage(n) == Stage::Spin(n as usize)
            &&& waiter.stage(waiter.first() as nat + k * looks + j) == if j == 0 {
                Stage::Yield(0)
            } else {
                Stage::Batch(j as usize)
            }
            &&& !waiter.sleeps()
        }),
{
    let b = waiter.batch() as int;
    if b > 0 {
        assert(0 <= k * b) by (nonlinear_arith)
            requires
                b > 0,
        ;
        vstd::arithmetic::div_mod::lemma_fundamental_div_mod_converse(k * b + j, b, k as int, j as int);
    }
}

/// A blocking wait looks as often as it was told without a pause, then as often as it was told with a
/// pause before each look, and then sleeps, each time after a look with the lock of the receivers. It
/// has to be called, since it sleeps.
pub proof fn lemma_blocking(waiter: BlockingWait, n: nat, k: nat)
    ensures
        n < waiter.first() ==> waiter.stage(n) == Stage::Spin(n as usize),
        n < waiter.yields() ==> waiter.stage(waiter.first() as nat + n) == Stage::Yield(n as usize),
        waiter.stage(waiter.first() as nat + waiter.yields() as nat + 2 * k) == Stage::Lock,
        waiter.stage(waiter.first() as nat + waiter.yields() as nat + 2 * k + 1) == Stage::Block,
        waiter.sleeps(),
{
}

/// The usual numbers of looks.
pub proof fn lemma_usual_numbers()
    ensures
        DEFAULT_TRY_SPINS == 1000,
        DEFAULT_YIELD_SPINS == 50,
        crate::futures_wait::MAX_INLINE == 8,
        crate::memory::FREE_THRESHOLD == 20,
{
}

} // verus!
