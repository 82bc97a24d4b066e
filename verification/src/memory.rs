//! Deferred release of what subscribers of a queue may still be looking at.
//!
//! What is taken out of use is first collected. A full collection is put aside under a new
//! epoch, and it is released once every subscriber has noted that epoch: by then each of them
//! has let go of whatever it held before.
use vstd::prelude::*;

use crate::atomicsignal::{AtomicSignal, LoadedSignal};

verus! {

/// A collection that holds more than this many items is put aside.
pub const FREE_THRESHOLD: usize = 20;

/// Something that waits to be released.
pub enum ToFree {
    /// A list of streams that another list has replaced.
    Group(Vec<usize>),
    /// The position of a stream that was removed.
    Pos(usize),
    /// The token of a subscriber that left.
    Token(usize),
}

/// What an item that waits to be released stands for.
pub enum Retired {
    /// A list of streams that another list has replaced.
    Group(Seq<usize>),
    /// The position of a stream that was removed.
    Pos(usize),
    /// The token of a subscriber that left.
    Token(usize),
}

impl View for ToFree {
    type V = Retired;

    open spec fn view(&self) -> Retired {
        match *self {
            ToFree::Group(v) => Retired::Group(v@),
            ToFree::Pos(pos) => Retired::Pos(pos),
            ToFree::Token(token) => Retired::Token(token),
        }
    }
}

/// What the items of a list stand for.
pub open spec fn retired_items(items: Seq<ToFree>) -> Seq<Retired> {
    Seq::new(items.len(), |i: int| items[i]@)
}

/// No two items release the same token.
pub open spec fn tokens_distinct(items: Seq<Retired>) -> bool {
    forall|i: int, j: int|
        #![trigger items[i], items[j]]
        0 <= i < j < items.len() && items[i] is Token && items[j] is Token ==> items[i] != items[j]
}

/// The epoch that a subscriber noted last.
pub struct MemToken {
    epoch: usize,
    used: bool,
}

/// The state of a `MemoryManager`.
#[verifier::ext_equal]
pub struct ManagerView {
    /// The tokens of the current subscribers, oldest first.
    pub tokens: Seq<usize>,
    /// The epoch that each of them noted last.
    pub noted: Map<usize, usize>,
    /// The current epoch.
    pub epoch: usize,
    /// The epoch of the last release.
    pub freed_epoch: usize,
    /// What is released once every subscriber has noted the current epoch.
    pub tofree: Seq<Retired>,
    /// What is still being collected.
    pub waiting: Seq<Retired>,
    /// The flags of the queue.
    pub signal: AtomicSignal,
}

impl ManagerView {
    /// The state at the start.
    pub open spec fn initial() -> ManagerView {
        ManagerView {
            tokens: Seq::empty(),
            noted: Map::empty(),
            epoch: 0,
            freed_epoch: 0,
            tofree: Seq::empty(),
            waiting: Seq::empty(),
            signal: AtomicSignal { epoch: false, reader: false },
        }
    }

    /// A subscriber is registered under the token.
    #[verifier::inline]
    pub open spec fn has(self, token: usize) -> bool {
        self.noted.dom().contains(token)
    }

    /// There is a subscriber, and every one has noted the current epoch.
    pub open spec fn caught_up(self) -> bool {
        &&& self.tokens.len() > 0
        &&& forall|i: int| 0 <= i < self.tokens.len() ==> self.noted[#[trigger] self.tokens[i]] == self.epoch
    }

    /// A new subscriber has come, and starts out at the current epoch.
    pub open spec fn with_token(self, token: usize) -> ManagerView {
        ManagerView {
            tokens: self.tokens.push(token),
            noted: self.noted.insert(token, self.epoch),
            ..self
        }
    }

    /// A subscriber has noted the current epoch.
    pub open spec fn with_noted(self, token: usize) -> ManagerView {
        ManagerView { noted: self.noted.insert(token, self.epoch), ..self }
    }

    /// What a subscriber does about the flags: it notes the epoch when asked to.
    pub open spec fn attended(self, token: usize) -> ManagerView {
        if self.signal.epoch {
            self.with_noted(token)
        } else {
            self
        }
    }

    /// A subscriber has left, and its token is to be released.
    pub open spec fn without_token(self, token: usize) -> ManagerView {
        ManagerView {
            tokens: crate::lists::struck(self.tokens, token),
            noted: self.noted.remove(token),
            waiting: self.waiting.push(Retired::Token(token)),
            ..self
        }
    }

    /// What was put aside is released, if nobody can be looking at it.
    pub open spec fn collected(self) -> ManagerView {
        if self.caught_up() {
            ManagerView {
                tofree: Seq::empty(),
                freed_epoch: self.epoch,
                signal: AtomicSignal { epoch: false, ..self.signal },
                ..self
            }
        } else {
            self
        }
    }

    /// The items that `collected` releases.
    pub open spec fn released(self) -> Seq<Retired> {
        if self.caught_up() {
            self.tofree
        } else {
            Seq::empty()
        }
    }

    /// What was collected is put aside under a new epoch, unless the last lot is still there.
    pub open spec fn put_aside(self) -> ManagerView {
        if self.freed_epoch == self.epoch {
            ManagerView {
                tofree: self.waiting,
                waiting: Seq::empty(),
                epoch: vstd::wrapping::usize_specs::wrapping_add(self.epoch, 1),
                signal: AtomicSignal { epoch: true, ..self.signal },
                ..self
            }
        } else {
            self
        }
    }

    /// One more item is to be released.
    pub open spec fn freed(self, item: Retired) -> ManagerView {
        let after = ManagerView { waiting: self.waiting.push(item), ..self }.collected();
        if after.waiting.len() > FREE_THRESHOLD {
            after.put_aside()
        } else {
            after
        }
    }
}

impl ManagerView {
    /// Every subscriber has noted the current epoch, or the one before it while what was put
    /// aside under the current one waits. Subscribers are asked to note the epoch just then.
    pub open spec fn in_step(self) -> bool {
        &&& self.noted.dom() == self.tokens.to_set()
        &&& self.signal.epoch == (self.freed_epoch != self.epoch)
        &&& self.freed_epoch == self.epoch || self.epoch == vstd::wrapping::usize_specs::wrapping_add(
            self.freed_epoch,
            1,
        )
        &&& self.freed_epoch == self.epoch ==> self.tofree.len() == 0
        &&& forall|t: usize| #[trigger]
            self.has(t) ==> self.noted[t] == self.epoch || self.noted[t] == self.freed_epoch
    }

    /// Whatever a manager does keeps the subscribers in step.
    pub proof fn lemma_in_step(self, token: usize, item: Retired)
        requires
            self.in_step(),
        ensures
            self.with_token(token).in_step(),
            self.has(token) ==> self.with_noted(token).in_step(),
            self.has(token) ==> self.attended(token).in_step(),
            self.without_token(token).in_step(),
            self.collected().in_step(),
            self.put_aside().in_step(),
            self.freed(item).in_step(),
    {
        assert(self.with_token(token).noted.dom() =~= self.with_token(token).tokens.to_set()) by {
            assert forall|t: usize| #[trigger] self.with_token(token).tokens.contains(t) <==> self.has(t) || t
                == token by {
                crate::lists::lemma_push_contains(self.tokens, token, t);
            }
        }
        if self.has(token) {
            assert(self.with_noted(token).noted.dom() =~= self.noted.dom());
        }
        crate::lists::lemma_struck(self.tokens, token);
        assert(self.without_token(token).noted.dom() =~= self.without_token(token).tokens.to_set());
        let mid = ManagerView { waiting: self.waiting.push(item), ..self };
        self.lemma_collected_in_step();
        mid.lemma_collected_in_step();
        self.lemma_put_aside_in_step();
        mid.collected().lemma_put_aside_in_step();
    }

    proof fn lemma_collected_in_step(self)
        requires
            self.in_step(),
        ensures
            self.collected().in_step(),
    {
        if self.caught_up() {
            assert forall|t: usize| #[trigger] self.has(t) implies self.noted[t] == self.epoch by {
                let i = choose|i: int| 0 <= i < self.tokens.len() && self.tokens[i] == t;
                assert(self.noted[self.tokens[i]] == self.epoch);
            }
        }
    }

    proof fn lemma_put_aside_in_step(self)
        requires
            self.in_step(),
        ensures
            self.put_aside().in_step(),
    {
    }
}

/// What a manager is told.
pub enum ManagerEvent {
    /// A subscriber has come, and has got a token.
    Come(usize),
    /// A subscriber did what the flags ask for.
    Attend(usize),
    /// A subscriber has left.
    Go(usize),
    /// Something is to be released.
    Free(Retired),
}

/// The state of a manager after `events`.
pub open spec fn after_events(start: ManagerView, events: Seq<ManagerEvent>) -> ManagerView
    decreases events.len(),
{
    if events.len() == 0 {
        start
    } else {
        let before = after_events(start, events.drop_last());
        match events.last() {
            ManagerEvent::Come(token) => before.with_token(token),
            ManagerEvent::Attend(token) => if before.has(token) {
                before.attended(token)
            } else {
                before
            },
            ManagerEvent::Go(token) => before.without_token(token),
            ManagerEvent::Free(item) => before.freed(item),
        }
    }
}

/// Nothing is released under the eyes of a subscriber: what was not put aside yet stays as long
/// as a subscriber neither leaves nor does what the flags ask for, whatever else happens.
pub proof fn lemma_no_early_release(
    start: ManagerView,
    events: Seq<ManagerEvent>,
    token: usize,
    item: Retired,
)
    requires
        start.in_step(),
        start.has(token),
        !start.tofree.contains(item),
        forall|i: int|
            0 <= i < events.len() ==> (#[trigger] events[i]) != ManagerEvent::Attend(token) && events[i]
                != ManagerEvent::Go(token) && events[i] != ManagerEvent::Come(token),
    ensures
        after_events(start, events).in_step(),
        after_events(start, events).has(token),
        !after_events(start, events).released().contains(item),
{
    lemma_held_back(start, events, token, item);
    let now = after_events(start, events);
    if now.caught_up() && now.tofree.contains(item) {
        let i = choose|i: int| 0 <= i < now.tokens.len() && now.tokens[i] == token;
        assert(now.noted[now.tokens[i]] == now.epoch);
    }
}

/// While a subscriber does nothing, an item is put aside only under an epoch that the subscriber
/// has not noted.
proof fn lemma_held_back(start: ManagerView, events: Seq<ManagerEvent>, token: usize, item: Retired)
    requires
        start.in_step(),
        start.has(token),
        !start.tofree.contains(item),
        forall|i: int|
            0 <= i < events.len() ==> (#[trigger] events[i]) != ManagerEvent::Attend(token) && events[i]
                != ManagerEvent::Go(token) && events[i] != ManagerEvent::Come(token),
    ensures
        ({
            let now = after_events(start, events);
            &&& now.in_step()
            &&& now.has(token)
            &&& now.tofree.contains(item) ==> now.noted[token] != now.epoch
        }),
    decreases events.len(),
{
    if events.len() > 0 {
        let front = events.drop_last();
        assert forall|i: int| 0 <= i < front.len() implies (#[trigger] front[i]) != ManagerEvent::Attend(token)
            && front[i] != ManagerEvent::Go(token) && front[i] != ManagerEvent::Come(token) by {
            assert(events[i] == front[i]);
        }
        lemma_held_back(start, front, token, item);
        let before = after_events(start, front);
        assert(events.last() == events[events.len() - 1]);
        match events.last() {
            ManagerEvent::Come(other) => {
                before.lemma_in_step(other, item);
                crate::lists::lemma_push_contains(before.tokens, other, token);
            },
            ManagerEvent::Attend(other) => {
                before.lemma_in_step(other, item);
            },
            ManagerEvent::Go(other) => {
                before.lemma_in_step(other, item);
                crate::lists::lemma_struck(before.tokens, other);
            },
            ManagerEvent::Free(other) => {
                before.lemma_in_step(token, other);
                let mid = ManagerView { waiting: before.waiting.push(other), ..before };
                if mid.caught_up() {
                    assert(mid.collected().tofree =~= Seq::<Retired>::empty());
                }
            },
        }
    }
}

/// What was put aside is released at the next chance once every subscriber has noted the epoch.
pub proof fn lemma_release_when_noted(manager: ManagerView, item: Retired)
    requires
        manager.in_step(),
        manager.tokens.len() > 0,
        forall|t: usize| #[trigger] manager.has(t) ==> manager.noted[t] == manager.epoch,
    ensures
        manager.released() == manager.tofree,
        manager.freed(item).freed_epoch == manager.epoch,
{
    assert forall|i: int| 0 <= i < manager.tokens.len() implies manager.noted[#[trigger] manager.tokens[i]]
        == manager.epoch by {
        assert(manager.tokens.contains(manager.tokens[i]));
        assert(manager.has(manager.tokens[i]));
    }
    let mid = ManagerView { waiting: manager.waiting.push(item), ..manager };
    assert(mid.caught_up());
}

/// A subscriber that does what the flags ask for while something is put aside notes its epoch.
pub proof fn lemma_attend_notes(manager: ManagerView, token: usize)
    requires
        manager.in_step(),
        manager.has(token),
    ensures
        manager.attended(token).noted[token] == manager.epoch,
{
}

/// The part of a `MemoryManager` that decides on releases.
pub struct MemoryManagerInner {
    tokens: Vec<usize>,
    slots: Vec<MemToken>,
    tofree: Vec<ToFree>,
    epoch: usize,
}

/// The state of a `MemoryManagerInner`.
#[verifier::ext_equal]
pub struct InnerView {
    /// The tokens of the current subscribers, oldest first.
    pub tokens: Seq<usize>,
    /// The epoch that each of them noted last.
    pub noted: Map<usize, usize>,
    /// The tokens that are in use or wait to be released.
    pub taken: Set<usize>,
    /// What was put aside.
    pub tofree: Seq<Retired>,
    /// The epoch of the last release.
    pub epoch: usize,
}

impl InnerView {
    /// There is a subscriber, and every one has noted epoch `at`.
    pub open spec fn caught_up(self, at: usize) -> bool {
        &&& self.tokens.len() > 0
        &&& forall|i: int| 0 <= i < self.tokens.len() ==> self.noted[#[trigger] self.tokens[i]] == at
    }
}

/// The tokens of `taken` that `items` does not release.
pub open spec fn without_released(taken: Set<usize>, items: Seq<Retired>) -> Set<usize> {
    Set::new(|t: usize| taken.contains(t) && !items.contains(Retired::Token(t)))
}

impl View for MemoryManagerInner {
    type V = InnerView;

    closed spec fn view(&self) -> InnerView {
        InnerView {
            tokens: self.tokens@,
            noted: Map::new(|t: usize| self.tokens@.contains(t), |t: usize| self.slots@[t as int].epoch),
            taken: Set::new(|t: usize| t < self.slots@.len() && self.slots@[t as int].used),
            tofree: retired_items(self.tofree@),
            epoch: self.epoch,
        }
    }
}

impl MemoryManagerInner {
    /// The subscribers have tokens of their own, and what was put aside releases only tokens
    /// that are taken.
    pub open spec fn wf(&self) -> bool {
        &&& self@.tokens.no_duplicates()
        &&& self@.noted.dom() == self@.tokens.to_set()
        &&& forall|i: int| 0 <= i < self@.tokens.len() ==> self@.taken.contains(#[trigger] self@.tokens[i])
        &&& forall|i: int|
            0 <= i < self@.tofree.len() ==> ((#[trigger] self@.tofree[i]) matches Retired::Token(t)
                ==> self@.taken.contains(t))
    }

    /// No subscribers, nothing to release.
    pub fn new() -> (res: MemoryManagerInner)
        ensures
            res.wf(),
            res@ == (InnerView {
                tokens: Seq::empty(),
                noted: Map::empty(),
                taken: Set::empty(),
                tofree: Seq::empty(),
                epoch: 0,
            }),
    {
        let res = MemoryManagerInner {
            tokens: Vec::new(),
            slots: Vec::new(),
            tofree: Vec::new(),
            epoch: 0,
        };
        proof {
            assert(res@.noted.dom() =~= res@.tokens.to_set());
            assert(res@.noted =~= Map::<usize, usize>::empty());
            assert(res@.taken =~= Set::<usize>::empty());
            assert(res@.tofree =~= Seq::<Retired>::empty());
        }
        res
    }

    /// Registers a subscriber at epoch `at` under a token that is not taken.
    pub fn get_token(&mut self, at: usize) -> (res: usize)
        requires
            old(self).wf(),
        ensures
            final(self).wf(),
            !old(self)@.taken.contains(res),
            final(self)@ == (InnerView {
                tokens: old(self)@.tokens.push(res),
                noted: old(self)@.noted.insert(res, at),
                taken: old(self)@.taken.insert(res),
                ..old(self)@
            }),
    {
        let mut token: usize = 0;
        while token < self.slots.len() && self.slots[token].used
            invariant
                token <= self.slots@.len(),
            decreases self.slots@.len() - token,
        {
            token = token + 1;
        }
        let slot = MemToken { epoch: at, used: true };
        if token < self.slots.len() {
            self.slots.set(token, slot);
        } else {
            self.slots.push(slot);
        }
        self.tokens.push(token);
        proof {
            broadcast use vstd::seq_lib::group_seq_properties;

            let before = old(self)@;
            assert(!before.taken.contains(token));
            assert(!before.tokens.contains(token)) by {
                if before.tokens.contains(token) {
                    let i = choose|i: int| 0 <= i < before.tokens.len() && before.tokens[i] == token;
                    assert(before.taken.contains(before.tokens[i]));
                }
            }
            assert(self@.tokens =~= before.tokens.push(token));
            assert(self@.taken =~= before.taken.insert(token));
            assert(self@.noted =~= before.noted.insert(token, at)) by {
                assert forall|t: usize| #[trigger] self@.tokens.contains(t) implies before.tokens.contains(t)
                    || t == token by {}
                assert forall|t: usize| #[trigger] before.tokens.contains(t) implies t < old(self).slots@.len() by {
                    let i = choose|i: int| 0 <= i < before.tokens.len() && before.tokens[i] == t;
                    assert(before.taken.contains(before.tokens[i]));
                }
            }
            assert(self@.noted.dom() =~= self@.tokens.to_set());
            assert(self@.tofree =~= before.tofree);
            assert forall|i: int| 0 <= i < self@.tokens.len() implies self@.taken.contains(
                #[trigger] self@.tokens[i],
            ) by {
                if i < before.tokens.len() {
                    assert(before.taken.contains(before.tokens[i]));
                }
            }
            assert(self@.tokens.no_duplicates());
        }
        token
    }

    /// Strikes a subscriber off. Its token stays taken.
    pub fn remove_token(&mut self, token: usize)
        requires
            old(self).wf(),
        ensures
            final(self).wf(),
            final(self)@ == (InnerView {
                tokens: crate::lists::struck(old(self)@.tokens, token),
                noted: old(self)@.noted.remove(token),
                ..old(self)@
            }),
    {
        self.tokens = crate::lists::strike(&self.tokens, token);
        proof {
            let before = old(self)@;
            crate::lists::lemma_struck(before.tokens, token);
            assert(self@.noted =~= before.noted.remove(token));
            assert(self@.noted.dom() =~= self@.tokens.to_set());
            assert(self@.taken =~= before.taken);
            assert(self@.tofree =~= before.tofree);
            assert forall|k: int| 0 <= k < self@.tokens.len() implies self@.taken.contains(
                #[trigger] self@.tokens[k],
            ) by {
                assert(self@.tokens.contains(self@.tokens[k]));
                let m = choose|m: int| 0 <= m < before.tokens.len() && before.tokens[m] == self@.tokens[k];
                assert(before.taken.contains(before.tokens[m]));
            }
        }
    }

    /// The epoch of the last release.
    pub fn get_epoch(&self) -> (res: usize)
        ensures
            res == self@.epoch,
    {
        self.epoch
    }

    /// Notes epoch `at` for a subscriber.
    pub fn note(&mut self, token: usize, at: usize)
        requires
            old(self).wf(),
            old(self)@.tokens.contains(token),
        ensures
            final(self).wf(),
            final(self)@ == (InnerView { noted: old(self)@.noted.insert(token, at), ..old(self)@ }),
    {
        proof {
            let k = choose|k: int| 0 <= k < self@.tokens.len() && self@.tokens[k] == token;
            assert(self@.taken.contains(self@.tokens[k]));
        }
        if self.slots[token].epoch != at {
            self.slots.set(token, MemToken { epoch: at, used: true });
        }
        proof {
            let before = old(self)@;
            assert(self@.noted =~= before.noted.insert(token, at)) by {
                assert forall|t: usize| #[trigger] before.tokens.contains(t) implies t < old(self).slots@.len() by {
                    let i = choose|i: int| 0 <= i < before.tokens.len() && before.tokens[i] == t;
                    assert(before.taken.contains(before.tokens[i]));
                }
            }
            assert(self@.taken =~= before.taken);
            assert(self@.noted.dom() =~= self@.tokens.to_set());
            assert(self@.tofree =~= before.tofree);
        }
    }

    /// Releases what was put aside, if every subscriber has noted epoch `at`, and says whether
    /// that happened. What was released is handed to the caller; its tokens can be given out
    /// again.
    pub fn try_freeing(&mut self, at: usize) -> (res: (bool, Vec<ToFree>))
        requires
            old(self).wf(),
            forall|i: int|
                0 <= i < old(self)@.tofree.len() ==> ((#[trigger] old(self)@.tofree[i]) matches Retired::Token(
                    t,
                ) ==> !old(self)@.tokens.contains(t)),
        ensures
            final(self).wf(),
            res.0 == old(self)@.caught_up(at),
            res.0 ==> retired_items(res.1@) == old(self)@.tofree && final(self)@ == (InnerView {
                tofree: Seq::empty(),
                taken: without_released(old(self)@.taken, old(self)@.tofree),
                epoch: at,
                ..old(self)@
            }),
            !res.0 ==> res.1@.len() == 0 && final(self)@ == old(self)@,
    {
        let mut freed: Vec<ToFree> = Vec::new();
        if self.tokens.len() == 0 {
            return (false, freed);
        }
        let mut i: usize = 0;
        while i < self.tokens.len()
            invariant
                i <= self.tokens@.len(),
                self.wf(),
                *self == *old(self),
                freed@.len() == 0,
                forall|k: int| 0 <= k < i ==> self@.noted[#[trigger] self@.tokens[k]] == at,
            decreases self.tokens@.len() - i,
        {
            let token: usize = self.tokens[i];
            proof {
                assert(self@.taken.contains(self@.tokens[i as int]));
                assert(self@.tokens.contains(self@.tokens[i as int]));
            }
            if self.slots[token].epoch != at {
                proof {
                    assert(self@.noted[self@.tokens[i as int]] != at);
                }
                return (false, freed);
            }
            i = i + 1;
        }
        core::mem::swap(&mut freed, &mut self.tofree);
        let ghost items = retired_items(freed@);
        let mut k: usize = 0;
        while k < freed.len()
            invariant
                k <= freed@.len(),
                items == retired_items(freed@),
                items == old(self)@.tofree,
                self.tokens == old(self).tokens,
                self.tofree@.len() == 0,
                old(self).wf(),
                forall|m: int|
                    0 <= m < items.len() ==> ((#[trigger] items[m]) matches Retired::Token(t)
                        ==> !old(self)@.tokens.contains(t)),
                self.slots@.len() == old(self).slots@.len(),
                forall|t: usize|
                    t < self.slots@.len() ==> (#[trigger] self.slots@[t as int]).epoch == old(
                        self,
                    ).slots@[t as int].epoch && self.slots@[t as int].used == (old(
                        self,
                    ).slots@[t as int].used && !items.take(k as int).contains(Retired::Token(t))),
            decreases freed@.len() - k,
        {
            proof {
                assert(items.take(k + 1) =~= items.take(k as int).push(items[k as int]));
                assert(items[k as int] == freed@[k as int]@);
                assert forall|t: usize| items.take(k + 1).contains(Retired::Token(t)) <==> items.take(
                    k as int,
                ).contains(Retired::Token(t)) || items[k as int] == Retired::Token(t) by {
                    crate::lists::lemma_push_contains(items.take(k as int), items[k as int], Retired::Token(t));
                }
                if let Retired::Token(t) = items[k as int] {
                    assert(old(self)@.taken.contains(t));
                }
            }
            if let ToFree::Token(t) = &freed[k] {
                let token: usize = *t;
                let epoch: usize = self.slots[token].epoch;
                self.slots.set(token, MemToken { epoch, used: false });
            }
            k = k + 1;
        }
        self.epoch = at;
        proof {
            let before = old(self)@;
            assert(items.take(k as int) =~= items);
            assert(self@.tofree =~= Seq::<Retired>::empty());
            assert(self@.taken =~= without_released(before.taken, before.tofree));
            assert(self@.noted =~= before.noted) by {
                assert forall|t: usize| #[trigger] before.tokens.contains(t) implies t < self.slots@.len() by {
                    let m = choose|m: int| 0 <= m < before.tokens.len() && before.tokens[m] == t;
                    assert(before.taken.contains(before.tokens[m]));
                }
            }
            assert forall|m: int| 0 <= m < self@.tokens.len() implies self@.taken.contains(
                #[trigger] self@.tokens[m],
            ) by {
                assert(before.taken.contains(before.tokens[m]));
                assert(before.tokens.contains(before.tokens[m]));
                if before.tofree.contains(Retired::Token(before.tokens[m])) {
                    let q = choose|q: int|
                        0 <= q < before.tofree.len() && before.tofree[q] == Retired::Token(before.tokens[m]);
                    assert(items[q] == Retired::Token(before.tokens[m]));
                }
            }
        }
        (true, freed)
    }

    /// Puts `items` aside, in place of what was there.
    pub fn add_freeable(&mut self, items: Vec<ToFree>)
        requires
            old(self).wf(),
            forall|i: int|
                0 <= i < items@.len() ==> ((#[trigger] items@[i])@ matches Retired::Token(t)
                    ==> old(self)@.taken.contains(t)),
        ensures
            final(self).wf(),
            final(self)@ == (InnerView { tofree: retired_items(items@), ..old(self)@ }),
    {
        self.tofree = items;
        proof {
            let before = old(self)@;
            assert(self@.noted =~= before.noted);
            assert(self@.taken =~= before.taken);
            assert(self@.tofree =~= retired_items(items@));
        }
    }
}

/// Keeps what was taken out of use until no subscriber can be looking at it.
pub struct MemoryManager {
    mem_manager: MemoryManagerInner,
    wait_to_free: Vec<ToFree>,
    epoch: usize,
    signal: AtomicSignal,
}

impl View for MemoryManager {
    type V = ManagerView;

    closed spec fn view(&self) -> ManagerView {
        ManagerView {
            tokens: self.mem_manager@.tokens,
            noted: self.mem_manager@.noted,
            epoch: self.epoch,
            freed_epoch: self.mem_manager@.epoch,
            tofree: self.mem_manager@.tofree,
            waiting: retired_items(self.wait_to_free@),
            signal: self.signal,
        }
    }
}

impl MemoryManager {
    /// Every token belongs to one subscriber or waits once to be released, and the subscribers
    /// are in step.
    pub closed spec fn wf(&self) -> bool {
        let items = self@.tofree + self@.waiting;
        &&& self.mem_manager.wf()
        &&& tokens_distinct(items)
        &&& forall|i: int|
            0 <= i < items.len() ==> ((#[trigger] items[i]) matches Retired::Token(t)
                ==> self.mem_manager@.taken.contains(t) && !self@.tokens.contains(t))
        &&& self@.in_step()
    }

    /// The subscribers are in step.
    pub proof fn lemma_consistent(&self)
        requires
            self.wf(),
        ensures
            self@.in_step(),
    {
    }

    /// No subscribers, nothing to release.
    pub fn new() -> (res: MemoryManager)
        ensures
            res.wf(),
            res@ == ManagerView::initial(),
    {
        let res = MemoryManager {
            mem_manager: MemoryManagerInner::new(),
            wait_to_free: Vec::new(),
            epoch: 0,
            signal: AtomicSignal::new(),
        };
        proof {
            assert(res@.waiting =~= Seq::<Retired>::empty());
        }
        res
    }

    /// The flags of the queue.
    pub fn load_signal(&self) -> (res: LoadedSignal)
        ensures
            res == (LoadedSignal { epoch: self@.signal.epoch, reader: self@.signal.reader }),
    {
        self.signal.load()
    }

    /// Reports that no stream is left.
    pub fn set_reader(&mut self)
        requires
            old(self).wf(),
        ensures
            final(self).wf(),
            final(self)@ == (ManagerView {
                signal: AtomicSignal { reader: true, ..old(self)@.signal },
                ..old(self)@
            }),
    {
        self.signal.set_reader();
    }

    /// Registers a subscriber. Its token is neither in use nor waits to be released.
    pub fn get_token(&mut self) -> (res: usize)
        requires
            old(self).wf(),
        ensures
            final(self).wf(),
            !old(self)@.has(res),
            !old(self)@.tofree.contains(Retired::Token(res)),
            !old(self)@.waiting.contains(Retired::Token(res)),
            final(self)@ == old(self)@.with_token(res),
    {
        let epoch: usize = self.epoch;
        let res: usize = self.mem_manager.get_token(epoch);
        proof {
            let before = old(self)@;
            before.lemma_in_step(res, Retired::Token(res));
            let items = before.tofree + before.waiting;
            assert(self@.tofree + self@.waiting == items);
            assert forall|i: int| 0 <= i < items.len() implies ((#[trigger] items[i]) matches Retired::Token(t)
                ==> t != res && self.mem_manager@.taken.contains(t) && !self@.tokens.contains(t)) by {
                if let Retired::Token(t) = items[i] {
                    crate::lists::lemma_push_contains(before.tokens, res, t);
                }
            }
            assert forall|i: int| 0 <= i < before.tofree.len() implies before.tofree[i] != Retired::Token(res) by {
                assert(items[i] == before.tofree[i]);
            }
            assert forall|i: int| 0 <= i < before.waiting.len() implies before.waiting[i] != Retired::Token(
                res,
            ) by {
                assert(items[i + before.tofree.len()] == before.waiting[i]);
            }
            if before.tokens.contains(res) {
                let i = choose|i: int| 0 <= i < before.tokens.len() && before.tokens[i] == res;
                assert(old(self).mem_manager@.taken.contains(old(self).mem_manager@.tokens[i]));
            }
        }
        res
    }

    /// Strikes a subscriber off, and collects its token for release.
    pub fn remove_token(&mut self, token: usize)
        requires
            old(self).wf(),
            old(self)@.has(token),
        ensures
            final(self).wf(),
            final(self)@ == old(self)@.without_token(token),
    {
        self.update_token(token);
        self.mem_manager.remove_token(token);
        self.wait_to_free.push(ToFree::Token(token));
        proof {
            let before = old(self)@;
            before.lemma_in_step(token, Retired::Token(token));
            let items = before.tofree + before.waiting;
            crate::lists::lemma_struck(before.tokens, token);
            assert(self@.waiting =~= before.waiting.push(Retired::Token(token)));
            assert(self@.tofree + self@.waiting =~= items.push(Retired::Token(token)));
            assert(self@.noted =~= before.noted.remove(token));
            let k = choose|k: int| 0 <= k < before.tokens.len() && before.tokens[k] == token;
            assert(old(self).mem_manager@.taken.contains(old(self).mem_manager@.tokens[k]));
            assert forall|i: int| 0 <= i < items.len() implies items[i] != Retired::Token(token) by {
                if items[i] == Retired::Token(token) {
                    assert(!before.tokens.contains(token));
                }
            }
        }
    }

    /// Puts what was collected aside under a new epoch, unless the last lot is still there.
    fn start_free(&mut self)
        requires
            old(self).wf(),
        ensures
            final(self).wf(),
            final(self)@ == old(self)@.put_aside(),
    {
        let cur_epoch: usize = self.epoch;
        let ghost items = self@.tofree + self@.waiting;
        if self.mem_manager.get_epoch() == cur_epoch {
            let mut newv: Vec<ToFree> = Vec::new();
            core::mem::swap(&mut newv, &mut self.wait_to_free);
            proof {
                assert(items =~= retired_items(newv@));
                assert forall|i: int| 0 <= i < newv@.len() implies ((#[trigger] newv@[i])@ matches Retired::Token(
                    t,
                ) ==> self.mem_manager@.taken.contains(t)) by {
                    assert(items[i] == newv@[i]@);
                }
            }
            self.mem_manager.add_freeable(newv);
            self.epoch = cur_epoch.wrapping_add(1);
            self.signal.set_epoch();
            proof {
                old(self)@.lemma_in_step(0, Retired::Token(0));
                assert(self@.waiting =~= Seq::<Retired>::empty());
                assert(self@.tofree + self@.waiting =~= items);
                assert(self@ =~= old(self)@.put_aside());
            }
        }
    }

    /// Collects an item for release, and releases what was put aside earlier if every
    /// subscriber has noted the current epoch. What was released is handed to the caller.
    pub fn free(&mut self, item: ToFree) -> (res: Vec<ToFree>)
        requires
            old(self).wf(),
            !(item is Token),
        ensures
            final(self).wf(),
            final(self)@ == old(self)@.freed(item@),
            retired_items(res@) == old(self)@.released(),
    {
        let ghost before = self@;
        let ghost items = before.tofree + before.waiting;
        self.wait_to_free.push(item);
        let epoch: usize = self.epoch;
        let ghost mid = self@;
        proof {
            assert(self@.waiting =~= before.waiting.push(item@));
            assert(mid =~= (ManagerView { waiting: before.waiting.push(item@), ..before }));
            let now = self@.tofree + self@.waiting;
            assert(now =~= items.push(item@));
            assert(self.wf());
            assert forall|i: int| 0 <= i < mid.tofree.len() implies ((#[trigger] mid.tofree[i]) matches Retired::Token(
                t,
            ) ==> !mid.tokens.contains(t)) by {
                assert(now[i] == mid.tofree[i]);
            }
        }
        let (done, res) = self.mem_manager.try_freeing(epoch);
        if done {
            self.signal.clear_epoch();
        }
        proof {
            assert(mid.caught_up() == done);
            assert(before.caught_up() == done);
            assert(self@ =~= mid.collected());
            mid.lemma_in_step(0, item@);
            let now = mid.tofree + mid.waiting;
            let after = self@.tofree + self@.waiting;
            if done {
                assert(after =~= mid.waiting);
                assert forall|i: int| 0 <= i < after.len() implies ((#[trigger] after[i]) matches Retired::Token(t)
                    ==> self.mem_manager@.taken.contains(t) && !self@.tokens.contains(t)) by {
                    assert(now[i + mid.tofree.len()] == after[i]);
                    if let Retired::Token(t) = after[i] {
                        if mid.tofree.contains(after[i]) {
                            let q = choose|q: int| 0 <= q < mid.tofree.len() && mid.tofree[q] == after[i];
                            assert(now[q] == now[i + mid.tofree.len()]);
                        }
                    }
                }
                assert forall|i: int, j: int|
                    #![trigger after[i], after[j]]
                    0 <= i < j < after.len() && after[i] is Token && after[j] is Token implies after[i]
                    != after[j] by {
                    assert(now[i + mid.tofree.len()] == after[i]);
                    assert(now[j + mid.tofree.len()] == after[j]);
                }
            } else {
                assert(after =~= now);
                assert(retired_items(res@) =~= Seq::<Retired>::empty());
            }
            assert(self.wf());
        }
        if self.wait_to_free.len() > FREE_THRESHOLD {
            self.start_free();
        }
        res
    }

    /// Notes the current epoch for a subscriber.
    pub fn update_token(&mut self, token: usize)
        requires
            old(self).wf(),
            old(self)@.has(token),
        ensures
            final(self).wf(),
            final(self)@ == old(self)@.with_noted(token),
    {
        proof {
            self@.lemma_in_step(token, Retired::Token(token));
        }
        let epoch: usize = self.epoch;
        self.mem_manager.note(token, epoch);
    }

    /// Does for a subscriber what the flags ask for.
    pub fn attend(&mut self, token: usize)
        requires
            old(self).wf(),
            old(self)@.has(token),
        ensures
            final(self).wf(),
            final(self)@ == old(self)@.attended(token),
    {
        if self.signal.load().get_epoch() {
            self.update_token(token);
        }
    }
}

/// Nothing is lost and nothing is released twice: what was put aside and what was collected, with one
/// more item, is what is released, what is put aside and what is collected after that, in order. A
/// collection is put aside only when it holds more than `FREE_THRESHOLD` items, and stays whole.
pub proof fn lemma_nothing_lost(manager: ManagerView, item: Retired)
    requires
        manager.in_step(),
    ensures
        ({
            let after = manager.freed(item);
            &&& manager.tofree + manager.waiting.push(item) == manager.released() + after.tofree + after.waiting
            &&& after.waiting.len() == 0 || after.waiting == manager.waiting.push(item)
            &&& manager.waiting.len() < FREE_THRESHOLD ==> after.waiting == manager.waiting.push(item)
            &&& after.waiting.len() > FREE_THRESHOLD ==> manager.tofree == after.tofree && manager.released().len()
                == 0
            &&& after.tokens == manager.tokens && after.noted == manager.noted
            &&& after.signal.reader == manager.signal.reader
        }),
{
    let after = manager.freed(item);
    let mid = ManagerView { waiting: manager.waiting.push(item), ..manager };
    assert(mid.caught_up() == manager.caught_up());
    assert(manager.tofree + manager.waiting.push(item) =~= manager.released() + after.tofree + after.waiting);
}

/// Subscribers come and go one by one: who comes is registered and has noted the epoch, who leaves is
/// not and its token waits for release, and nobody else is affected. Who takes note of the flags does
/// so for itself alone.
pub proof fn lemma_subscribers(manager: ManagerView, token: usize, other: usize)
    requires
        manager.in_step(),
    ensures
        ({
            let come = manager.with_token(token);
            let gone = manager.without_token(token);
            let noted = manager.with_noted(token);
            let attended = manager.attended(token);
            &&& come.has(token) && come.noted[token] == manager.epoch
            &&& !gone.has(token) && !gone.tokens.contains(token)
            &&& gone.waiting == manager.waiting.push(Retired::Token(token))
            &&& noted.noted[token] == manager.epoch
            &&& manager.has(token) ==> attended.noted[token] == manager.epoch
            &&& other != token ==> {
                &&& come.has(other) == manager.has(other) && come.noted[other] == manager.noted[other]
                &&& gone.has(other) == manager.has(other) && gone.noted[other] == manager.noted[other]
                &&& noted.has(other) == manager.has(other) && noted.noted[other] == manager.noted[other]
                &&& attended.has(other) == manager.has(other) && attended.noted[other] == manager.noted[other]
                &&& come.tokens.contains(other) == manager.tokens.contains(other)
                &&& gone.tokens.contains(other) == manager.tokens.contains(other)
            }
            &&& come.tofree == manager.tofree && come.waiting == manager.waiting
            &&& gone.tofree == manager.tofree
            &&& noted.tofree == manager.tofree && noted.waiting == manager.waiting
            &&& noted.tokens == manager.tokens && attended.tokens == manager.tokens
            &&& attended.tofree == manager.tofree && attended.waiting == manager.waiting
            &&& come.epoch == manager.epoch && gone.epoch == manager.epoch
            &&& noted.epoch == manager.epoch && attended.epoch == manager.epoch
            &&& come.freed_epoch == manager.freed_epoch && gone.freed_epoch == manager.freed_epoch
            &&& noted.freed_epoch == manager.freed_epoch && attended.freed_epoch == manager.freed_epoch
            &&& come.signal == manager.signal && gone.signal == manager.signal
            &&& noted.signal == manager.signal && attended.signal == manager.signal
        }),
{
    crate::lists::lemma_push_contains(manager.tokens, token, other);
    crate::lists::lemma_struck(manager.tokens, token);
    assert(manager.without_token(token).tokens.contains(other) <==> manager.tokens.contains(other) && other
        != token);
    assert(manager.without_token(token).tokens.contains(token) <==> manager.tokens.contains(token) && token
        != token);
}

/// A token or a place is free again exactly when it was released.
pub proof fn lemma_free_again(taken: Set<usize>, items: Seq<Retired>, token: usize)
    ensures
        without_released(taken, items).contains(token) <==> taken.contains(token) && forall|i: int|
            0 <= i < items.len() ==> #[trigger] items[i] != Retired::Token(token),
        crate::read_cursor::without_released(taken, items).contains(token) <==> taken.contains(token)
            && forall|i: int| 0 <= i < items.len() ==> #[trigger] items[i] != Retired::Pos(token),
{
    if items.contains(Retired::Token(token)) {
        let i = choose|i: int| 0 <= i < items.len() && items[i] == Retired::Token(token);
        assert(items[i] == Retired::Token(token));
    }
    if items.contains(Retired::Pos(token)) {
        let i = choose|i: int| 0 <= i < items.len() && items[i] == Retired::Pos(token);
        assert(items[i] == Retired::Pos(token));
    }
    assert forall|i: int| 0 <= i < items.len() implies items.contains(#[trigger] items[i]) by {}
}

} // verus!
