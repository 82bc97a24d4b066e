//! A short list of tasks that needs no allocation.
use vstd::prelude::*;

verus! {

/// A list of tasks that is stored in its place while it is short. It is a `smallvec::SmallVec` of
/// numbers.
#[verifier::external_body]
pub struct InlineTasks {
    list: smallvec::SmallVec<[u64; 9]>,
}

/// How many tasks the list stores in its place.
pub const INLINE_TASKS: usize = 9;

/// What the list holds, oldest first.
pub uninterp spec fn inline_contents(list: InlineTasks) -> Seq<u64>;

/// `SmallVec::new` makes a list that holds nothing.
#[verifier::external_body]
fn inline_new() -> (res: InlineTasks)
    ensures
        inline_contents(res) == Seq::<u64>::empty(),
{
    InlineTasks { list: smallvec::SmallVec::new() }
}

/// `Extend::extend` of `SmallVec` puts the items of an iterator behind what the list holds, in
/// their order. It is used here only where all items fit in the place of the list, so that it does
/// not have to grow, which could fail.
#[verifier::external_body]
fn inline_extend(list: &mut InlineTasks, tasks: Vec<u64>)
    requires
        inline_contents(*old(list)).len() + tasks@.len() <= INLINE_TASKS,
    ensures
        inline_contents(*final(list)) == inline_contents(*old(list)) + tasks@,
{
    list.list.extend(tasks)
}

/// `SmallVec::drain` takes all items out of the list, first to last.
#[verifier::external_body]
fn inline_drain(list: &mut InlineTasks) -> (res: Vec<u64>)
    ensures
        res@ == inline_contents(*old(list)),
        inline_contents(*final(list)) == Seq::<u64>::empty(),
{
    list.list.drain().collect()
}

impl View for InlineTasks {
    type V = Seq<u64>;

    open spec fn view(&self) -> Seq<u64> {
        inline_contents(*self)
    }
}

impl InlineTasks {
    /// The given tasks, which must be few.
    pub fn of(tasks: Vec<u64>) -> (res: InlineTasks)
        requires
            tasks@.len() <= INLINE_TASKS,
        ensures
            res@ == tasks@,
    {
        let mut res = inline_new();
        inline_extend(&mut res, tasks);
        proof {
            assert(res@ =~= tasks@);
        }
        res
    }

    /// The tasks of the list, oldest first.
    pub fn into_tasks(self) -> (res: Vec<u64>)
        ensures
            res@ == self@,
    {
        let mut list = self;
        inline_drain(&mut list)
    }
}

} // verus!
