//! The positions of the streams that read a queue.
use vstd::prelude::*;

use crate::countedindex::{past_by, CountedIndex, Index, Transaction, MAX_WRAP};
use crate::memory::{ManagerView, MemoryManager, Retired, ToFree};

verus! {

/// Whether a stream is known to have one consumer, or may have more.
#[derive(Clone, Copy, Debug, PartialEq, Eq, Structural)]
pub enum ReaderState {
    Single,
    Multi,
}

/// What a place for a stream is used for.
#[derive(Clone, Copy, Debug, PartialEq, Eq, Structural)]
enum Place {
    /// Nothing.
    Unused,
    /// A stream that is subscribed.
    Live,
    /// A stream that was removed, at whose position somebody may still be looking.
    Left,
}

/// The position of a stream, and what is known of its consumers.
struct ReaderSlot {
    pos_data: CountedIndex,
    state: ReaderState,
    num_consumers: usize,
    place: Place,
}

/// A stream of a queue.
#[derive(Clone, Copy, Debug, PartialEq, Eq, Structural)]
pub struct Reader {
    /// The place of the stream.
    pub pos: usize,
}

/// A position that was read, to be moved on only if no other consumer of the stream has done so
/// since.
pub struct ReadAttempt {
    pub linked: Transaction,
    pub reader: Reader,
    pub state: ReaderState,
}

/// The streams that are subscribed.
pub struct ReaderGroup {
    readers: Vec<usize>,
}

/// All streams of a queue.
pub struct ReadCursor {
    readers: ReaderGroup,
    slots: Vec<ReaderSlot>,
    last_pos: usize,
}

/// The state of a stream.
pub struct StreamView {
    /// The count of the next value.
    pub count: usize,
    /// The size of the queue.
    pub wrap: Index,
    pub state: ReaderState,
    pub consumers: usize,
}

/// The state of a `ReadCursor`.
#[verifier::ext_equal]
pub struct CursorView {
    /// The places of the streams that are subscribed, oldest first.
    pub group: Seq<usize>,
    /// The streams that are subscribed.
    pub streams: Map<usize, StreamView>,
    /// The places of removed streams that wait to be released.
    pub left: Set<usize>,
    /// Where the last stream stood when it was removed.
    pub last_pos: usize,
}

/// `diff` is the distance of the stream of `group` that is furthest behind `cur_writer`, or zero
/// if there is no stream.
pub open spec fn is_max_diff(
    group: Seq<usize>,
    streams: Map<usize, StreamView>,
    cur_writer: usize,
    diff: int,
) -> bool {
    &&& forall|i: int|
        0 <= i < group.len() ==> crate::countedindex::lead(
            cur_writer,
            streams[#[trigger] group[i]].count,
        ) <= diff
    &&& group.len() == 0 ==> diff == 0
    &&& group.len() > 0 ==> exists|i: int|
        0 <= i < group.len() && crate::countedindex::lead(
            cur_writer,
            streams[#[trigger] group[i]].count,
        ) == diff
}

/// A stream of `group` is ahead of `cur_writer`, as far as the counts tell.
pub open spec fn runs_ahead(
    group: Seq<usize>,
    streams: Map<usize, StreamView>,
    cur_writer: usize,
) -> bool {
    exists|i: int|
        0 <= i < group.len() && crate::countedindex::lead(
            cur_writer,
            streams[#[trigger] group[i]].count,
        ) > MAX_WRAP
}

/// The places of `left` that `items` does not release.
pub open spec fn without_released(left: Set<usize>, items: Seq<Retired>) -> Set<usize> {
    Set::new(|p: usize| left.contains(p) && !items.contains(Retired::Pos(p)))
}

/// What waits for release among `items` are places of removed streams, each once.
pub open spec fn places_left(left: Set<usize>, items: Seq<Retired>) -> bool {
    &&& forall|i: int|
        0 <= i < items.len() ==> ((#[trigger] items[i]) matches Retired::Pos(p) ==> left.contains(p))
    &&& forall|i: int, j: int|
        #![trigger items[i], items[j]]
        0 <= i < j < items.len() && items[i] is Pos && items[j] is Pos ==> items[i] != items[j]
}

impl CursorView {
    /// The subscribed streams are listed once each.
    pub open spec fn wf(self) -> bool {
        &&& self.group.no_duplicates()
        &&& self.streams.dom() == self.group.to_set()
        &&& self.left.disjoint(self.streams.dom())
    }

    /// The manager keeps the places of removed streams, and no others, for release.
    pub open spec fn kept_by(self, manager: ManagerView) -> bool {
        places_left(self.left, manager.tofree + manager.waiting)
    }

    /// `released` can be used again.
    pub open spec fn recycled(self, released: Seq<Retired>) -> CursorView {
        CursorView { left: without_released(self.left, released), ..self }
    }

    /// A stream at `count` with one consumer has come.
    pub open spec fn with_stream(self, pos: usize, count: usize, wrap: Index) -> CursorView {
        CursorView {
            group: self.group.push(pos),
            streams: self.streams.insert(
                pos,
                StreamView { count, wrap, state: ReaderState::Single, consumers: 1 },
            ),
            ..self
        }
    }

    /// A stream was removed; its place cannot be used yet.
    pub open spec fn without_stream(self, pos: usize) -> CursorView {
        CursorView {
            group: crate::lists::struck(self.group, pos),
            streams: self.streams.remove(pos),
            left: self.left.insert(pos),
            last_pos: if self.group.len() == 1 {
                self.streams[pos].count
            } else {
                self.last_pos
            },
        }
    }

    /// The stream at `pos` has become `stream`.
    pub open spec fn with_state(self, pos: usize, stream: StreamView) -> CursorView {
        CursorView { streams: self.streams.insert(pos, stream), ..self }
    }
}

impl View for ReadCursor {
    type V = CursorView;

    closed spec fn view(&self) -> CursorView {
        CursorView {
            group: self.readers.readers@,
            streams: Map::new(
                |p: usize| self.readers.readers@.contains(p),
                |p: usize| self.slots@[p as int].stream(),
            ),
            left: Set::new(|p: usize| p < self.slots@.len() && self.slots@[p as int].place == Place::Left),
            last_pos: self.last_pos,
        }
    }
}

impl ReaderSlot {
    spec fn stream(&self) -> StreamView {
        StreamView {
            count: self.pos_data.val,
            wrap: self.pos_data.wrap(),
            state: self.state,
            consumers: self.num_consumers,
        }
    }
}

impl ReaderGroup {
    /// The places of the streams.
    pub closed spec fn places(&self) -> Seq<usize> {
        self.readers@
    }

    /// No streams.
    pub fn new() -> (res: ReaderGroup)
        ensures
            res.places() == Seq::<usize>::empty(),
    {
        ReaderGroup { readers: Vec::new() }
    }

    /// The group with one more stream.
    pub fn add_stream(&self, pos: usize) -> (res: ReaderGroup)
        ensures
            res.places() == self.places().push(pos),
    {
        let mut new_readers = crate::lists::copy(&self.readers);
        new_readers.push(pos);
        ReaderGroup { readers: new_readers }
    }

    /// The group without a stream.
    pub fn remove_reader(&self, pos: usize) -> (res: ReaderGroup)
        ensures
            res.places() == crate::lists::struck(self.places(), pos),
    {
        ReaderGroup { readers: crate::lists::strike(&self.readers, pos) }
    }

    /// How far the slowest stream of the group is behind `cur_writer`, or nothing if a stream
    /// seems to be ahead of it.
    fn get_max_diff(&self, cursor: &ReadCursor, cur_writer: usize) -> (res: Option<Index>)
        requires
            cursor.wf(),
            *self == cursor.readers,
        ensures
            res is None <==> runs_ahead(cursor@.group, cursor@.streams, cur_writer),
            res matches Some(diff) ==> is_max_diff(cursor@.group, cursor@.streams, cur_writer, diff as int),
    {
        let mut max_diff: usize = 0;
        let mut i: usize = 0;
        let ghost group = cursor@.group;
        let ghost streams = cursor@.streams;
        while i < self.readers.len()
            invariant
                cursor.wf(),
                *self == cursor.readers,
                group == cursor@.group,
                streams == cursor@.streams,
                i <= group.len(),
                max_diff <= MAX_WRAP,
                forall|k: int|
                    0 <= k < i ==> crate::countedindex::lead(
                        cur_writer,
                        streams[#[trigger] group[k]].count,
                    ) <= max_diff,
                i == 0 ==> max_diff == 0,
                i > 0 ==> exists|k: int|
                    0 <= k < i && crate::countedindex::lead(
                        cur_writer,
                        streams[#[trigger] group[k]].count,
                    ) == max_diff,
            decreases self.readers@.len() - i,
        {
            let pos: usize = self.readers[i];
            proof {
                assert(group[i as int] == pos);
                assert(group.to_set().contains(group[i as int]));
                cursor.lemma_live(pos);
            }
            let rpos: usize = cursor.slots[pos].pos_data.load_count();
            let (diff, tofar) = past_by(cur_writer, rpos);
            if tofar {
                return None;
            }
            max_diff = if diff > max_diff {
                diff
            } else {
                max_diff
            };
            proof {
                if diff == max_diff {
                    assert(crate::countedindex::lead(cur_writer, streams[group[i as int]].count) == max_diff);
                }
            }
            i = i + 1;
        }
        Some(max_diff)
    }
}

/// When an item is collected for release, what is released are places of removed streams, and
/// what stays are the others.
proof fn lemma_kept(left: Set<usize>, manager: ManagerView, item: Retired)
    requires
        places_left(left, manager.tofree + manager.waiting),
        item matches Retired::Pos(p) ==> left.contains(p) && !(manager.tofree
            + manager.waiting).contains(item),
    ensures
        places_left(left, manager.released()),
        forall|x: Retired| #[trigger] manager.released().contains(x) ==> (manager.tofree
            + manager.waiting).contains(x),
        ({
            let after = manager.freed(item);
            let kept = after.tofree + after.waiting;
            &&& places_left(without_released(left, manager.released()), kept)
            &&& forall|x: Retired| #[trigger] kept.contains(x) ==> x == item || (manager.tofree
                + manager.waiting).contains(x)
        }),
{
    let items = manager.tofree + manager.waiting;
    let all = items.push(item);
    let released = manager.released();
    let after = manager.freed(item);
    let kept = after.tofree + after.waiting;
    let mid = ManagerView { waiting: manager.waiting.push(item), ..manager };
    assert(mid.caught_up() == manager.caught_up());
    assert forall|i: int| 0 <= i < released.len() implies released[i] == items[i] by {}
    assert forall|i: int, j: int|
        #![trigger released[i], released[j]]
        0 <= i < j < released.len() && released[i] is Pos && released[j] is Pos implies released[i]
        != released[j] by {
        assert(items[i] == released[i] && items[j] == released[j]);
    }
    assert forall|i: int| 0 <= i < released.len() implies ((#[trigger] released[i]) matches Retired::Pos(p)
        ==> left.contains(p)) by {
        assert(items[i] == released[i]);
    }
    assert forall|x: Retired| #[trigger] released.contains(x) implies items.contains(x) by {
        let i = choose|i: int| 0 <= i < released.len() && released[i] == x;
        assert(items[i] == x);
    }
    let skip: int = all.len() - kept.len();
    assert(kept =~= all.skip(skip)) by {
        if kept.len() == all.len() {
            assert(kept =~= all);
        } else {
            assert(kept =~= manager.waiting.push(item));
        }
    }
    assert(skip == 0 || skip == manager.tofree.len());
    assert(released.len() <= skip);
    assert forall|i: int| 0 <= i < kept.len() implies kept[i] == all[i + skip] by {}
    assert forall|x: Retired| #[trigger] kept.contains(x) implies x == item || items.contains(x) by {
        let i = choose|i: int| 0 <= i < kept.len() && kept[i] == x;
        assert(all[i + skip] == x);
        if i + skip < items.len() {
            assert(items[i + skip] == x);
        }
    }
    assert forall|i: int, j: int|
        #![trigger all[i], all[j]]
        0 <= i < j < all.len() && all[i] is Pos && all[j] is Pos implies all[i] != all[j] by {
        if j < items.len() {
            assert(items[i] != items[j]);
        } else {
            assert(items[i] == all[i]);
            assert(items.contains(items[i]));
        }
    }
    assert forall|i: int| 0 <= i < kept.len() implies ((#[trigger] kept[i]) matches Retired::Pos(p)
        ==> without_released(left, released).contains(p)) by {
        if let Retired::Pos(p) = kept[i] {
            assert(all[i + skip] == kept[i]);
            if i + skip < items.len() {
                assert(items[i + skip] == kept[i]);
            }
            if released.contains(Retired::Pos(p)) {
                let j = choose|j: int| 0 <= j < released.len() && released[j] == Retired::Pos(p);
                assert(all[j] == released[j]);
            }
        }
    }
    assert forall|i: int, j: int|
        #![trigger kept[i], kept[j]]
        0 <= i < j < kept.len() && kept[i] is Pos && kept[j] is Pos implies kept[i] != kept[j] by {
        assert(all[i + skip] != all[j + skip]);
    }
}

impl ReadCursor {
    /// The subscribed streams are at the places marked so, and have valid positions.
    pub closed spec fn wf(&self) -> bool {
        &&& self.readers.readers@.no_duplicates()
        &&& forall|i: int|
            0 <= i < self.readers.readers@.len() ==> (#[trigger] self.readers.readers@[i]) < self.slots@.len()
                && self.slots@[self.readers.readers@[i] as int].place == Place::Live
                && self.slots@[self.readers.readers@[i] as int].pos_data.wf()
        &&& self@.wf()
    }

    /// What is stored is a consistent set of streams.
    pub proof fn lemma_consistent(&self)
        requires
            self.wf(),
        ensures
            self@.wf(),
    {
    }

    /// A live stream has a slot.
    proof fn lemma_live(&self, pos: usize)
        requires
            self.wf(),
            self@.streams.dom().contains(pos),
        ensures
            pos < self.slots@.len(),
            self.slots@[pos as int].place == Place::Live,
            self.slots@[pos as int].pos_data.wf(),
            self@.streams[pos] == self.slots@[pos as int].stream(),
            self.readers.readers@.contains(pos),
    {
        let i = choose|i: int| 0 <= i < self.readers.readers@.len() && self.readers.readers@[i] == pos;
        assert(self.readers.readers@[i] == pos);
    }

    /// One stream, at the start of a queue of `wrap` slots.
    pub fn new(wrap: Index) -> (res: (ReadCursor, Reader))
        requires
            crate::countedindex::valid_wrap(wrap),
        ensures
            res.0.wf(),
            res.0@ == (CursorView {
                group: Seq::empty(),
                streams: Map::empty(),
                left: Set::empty(),
                last_pos: 0,
            }).with_stream(res.1.pos, 0, wrap),
    {
        let mut cursor = ReadCursor { readers: ReaderGroup::new(), slots: Vec::new(), last_pos: 0 };
        proof {
            assert(cursor@.streams =~= Map::<usize, StreamView>::empty());
            assert(cursor@.left =~= Set::<usize>::empty());
            assert(cursor@.streams.dom() =~= cursor@.group.to_set());
        }
        let (reader, _) = cursor.subscribe(0, wrap);
        (cursor, reader)
    }

    /// Adds a stream at count `raw`, and hands back the list of streams that was replaced.
    fn subscribe(&mut self, raw: usize, wrap: Index) -> (res: (Reader, Vec<usize>))
        requires
            old(self).wf(),
            crate::countedindex::valid_wrap(wrap),
        ensures
            final(self).wf(),
            !old(self)@.streams.dom().contains(res.0.pos),
            !old(self)@.left.contains(res.0.pos),
            final(self)@ == old(self)@.with_stream(res.0.pos, raw, wrap),
            res.1@ == old(self)@.group,
    {
        let mut pos: usize = 0;
        while pos < self.slots.len() && self.slots[pos].place != Place::Unused
            invariant
                pos <= self.slots@.len(),
            decreases self.slots@.len() - pos,
        {
            pos = pos + 1;
        }
        proof {
            if self@.streams.dom().contains(pos) {
                self.lemma_live(pos);
            }
        }
        let slot = ReaderSlot {
            pos_data: CountedIndex::from_usize(raw, wrap),
            state: ReaderState::Single,
            num_consumers: 1,
            place: Place::Live,
        };
        let ghost made = slot;
        if pos < self.slots.len() {
            self.slots.set(pos, slot);
        } else {
            self.slots.push(slot);
        }
        let mut group = self.readers.add_stream(pos);
        core::mem::swap(&mut self.readers, &mut group);
        proof {
            broadcast use vstd::seq_lib::group_seq_properties;

            let before = old(self)@;
            assert(self.readers.readers@ == before.group.push(pos));
            assert(!before.group.contains(pos)) by {
                assert(before.group.to_set().contains(pos) == before.group.contains(pos));
            }
            assert forall|p: usize| #[trigger] self.readers.readers@.contains(p) <==> before.group.contains(p)
                || p == pos by {
                crate::lists::lemma_push_contains(before.group, pos, p);
            }
            assert forall|i: int| 0 <= i < self.readers.readers@.len() implies (
            #[trigger] self.readers.readers@[i]) < self.slots@.len()
                && self.slots@[self.readers.readers@[i] as int].place == Place::Live
                && self.slots@[self.readers.readers@[i] as int].pos_data.wf() by {
                if i < before.group.len() {
                    assert(old(self).readers.readers@[i] == self.readers.readers@[i]);
                    assert(before.group.contains(before.group[i]));
                }
            }
            assert forall|p: usize| before.group.contains(p) implies p < old(self).slots@.len() by {
                assert(before.streams.dom().contains(p)) by {
                    assert(before.group.to_set().contains(p));
                }
                old(self).lemma_live(p);
            }
            assert(self@.streams =~= before.with_stream(pos, raw, wrap).streams);
            assert(self@.left =~= before.left);
            assert(self@.streams.dom() =~= self@.group.to_set());
            assert(self@.group.no_duplicates());
            assert(self@ =~= before.with_stream(pos, raw, wrap));
        }
        (Reader { pos }, group.readers)
    }

    /// How far the slowest stream is behind `cur_writer`, or nothing if a stream seems to be
    /// ahead of it.
    pub fn get_max_diff(&self, cur_writer: usize) -> (res: Option<Index>)
        requires
            self.wf(),
        ensures
            res is None <==> runs_ahead(self@.group, self@.streams, cur_writer),
            res matches Some(diff) ==> is_max_diff(self@.group, self@.streams, cur_writer, diff as int),
    {
        self.readers.get_max_diff(self, cur_writer)
    }

    /// Whether no stream is subscribed.
    pub fn has_readers(&self) -> (res: bool)
        ensures
            res == (self@.group.len() == 0),
    {
        self.readers.readers.len() == 0
    }

    /// Where the last stream stood when it was removed.
    pub fn last_pos(&self) -> (res: usize)
        ensures
            res == self@.last_pos,
    {
        self.last_pos
    }

    /// Takes a stream off the list, and hands back the list that was replaced.
    fn leave(&mut self, pos: usize) -> (res: Vec<usize>)
        requires
            old(self).wf(),
            old(self)@.streams.dom().contains(pos),
        ensures
            final(self).wf(),
            final(self)@ == old(self)@.without_stream(pos),
            res@ == old(self)@.group,
    {
        proof {
            self.lemma_live(pos);
        }
        let count: usize = self.slots[pos].pos_data.load_count();
        let mask: usize = self.slots[pos].pos_data.mask;
        if self.readers.readers.len() == 1 {
            self.last_pos = count;
        }
        let slot = ReaderSlot {
            pos_data: CountedIndex { val: count, mask },
            state: ReaderState::Single,
            num_consumers: 0,
            place: Place::Left,
        };
        self.slots.set(pos, slot);
        let mut group = self.readers.remove_reader(pos);
        core::mem::swap(&mut self.readers, &mut group);
        proof {
            let before = old(self)@;
            crate::lists::lemma_struck(before.group, pos);
            assert(before.streams.dom() == before.group.to_set());
            assert forall|p: usize| #[trigger] before.streams.dom().contains(p) implies p < self.slots@.len() by {
                old(self).lemma_live(p);
            }
            assert forall|i: int| 0 <= i < self.readers.readers@.len() implies (
            #[trigger] self.readers.readers@[i]) < self.slots@.len()
                && self.slots@[self.readers.readers@[i] as int].place == Place::Live
                && self.slots@[self.readers.readers@[i] as int].pos_data.wf() by {
                let p = self.readers.readers@[i];
                assert(self.readers.readers@.contains(p));
                assert(before.group.contains(p) && p != pos);
                assert(before.streams.dom().contains(p));
                old(self).lemma_live(p);
            }
            assert(self@.streams =~= before.streams.remove(pos));
            assert(self@.left =~= before.left.insert(pos));
            assert(self@.streams.dom() =~= self@.group.to_set());
            assert(self@ =~= before.without_stream(pos));
        }
        group.readers
    }

    /// Makes the places that `released` names ready for use.
    fn recycle(&mut self, released: Vec<ToFree>)
        requires
            old(self).wf(),
            places_left(old(self)@.left, crate::memory::retired_items(released@)),
        ensures
            final(self).wf(),
            final(self)@ == old(self)@.recycled(crate::memory::retired_items(released@)),
    {
        let ghost items = crate::memory::retired_items(released@);
        let mut k: usize = 0;
        proof {
            assert(self@.left =~= without_released(old(self)@.left, items.take(0)));
        }
        while k < released.len()
            invariant
                k <= released@.len(),
                items == crate::memory::retired_items(released@),
                places_left(old(self)@.left, items),
                self.wf(),
                self@ == old(self)@.recycled(items.take(k as int)),
            decreases released@.len() - k,
        {
            proof {
                assert(items.take(k + 1) =~= items.take(k as int).push(items[k as int]));
                assert(items[k as int] == released@[k as int]@);
                assert forall|p: usize| items.take(k + 1).contains(Retired::Pos(p)) <==> items.take(
                    k as int,
                ).contains(Retired::Pos(p)) || items[k as int] == Retired::Pos(p) by {
                    crate::lists::lemma_push_contains(items.take(k as int), items[k as int], Retired::Pos(p));
                }
            }
            let ghost before = self@;
            if let ToFree::Pos(p) = &released[k] {
                let pos: usize = *p;
                proof {
                    assert(old(self)@.left.contains(pos));
                    if items.take(k as int).contains(Retired::Pos(pos)) {
                        let m = choose|m: int|
                            0 <= m < items.take(k as int).len() && items.take(k as int)[m] == Retired::Pos(pos);
                        assert(items[m] == items[k as int]);
                    }
                    assert(before.left.contains(pos));
                }
                self.release(pos);
                proof {
                    assert(self@.left =~= without_released(old(self)@.left, items.take(k + 1)));
                }
            } else {
                proof {
                    assert(self@.left =~= without_released(old(self)@.left, items.take(k + 1)));
                }
            }
            k = k + 1;
        }
        proof {
            assert(items.take(k as int) =~= items);
        }
    }

    /// Makes one place ready for use.
    fn release(&mut self, pos: usize)
        requires
            old(self).wf(),
            old(self)@.left.contains(pos),
        ensures
            final(self).wf(),
            final(self)@ == (CursorView { left: old(self)@.left.remove(pos), ..old(self)@ }),
    {
        let count: usize = self.slots[pos].pos_data.val;
        let mask: usize = self.slots[pos].pos_data.mask;
        let slot = ReaderSlot {
            pos_data: CountedIndex { val: count, mask },
            state: ReaderState::Single,
            num_consumers: 0,
            place: Place::Unused,
        };
        self.slots.set(pos, slot);
        proof {
            let before = old(self)@;
            assert forall|p: usize| #[trigger] before.streams.dom().contains(p) implies p != pos
                && old(self).slots@[p as int] == self.slots@[p as int] by {
                old(self).lemma_live(p);
            }
            assert forall|i: int| 0 <= i < self.readers.readers@.len() implies (
            #[trigger] self.readers.readers@[i]) < self.slots@.len()
                && self.slots@[self.readers.readers@[i] as int].place == Place::Live
                && self.slots@[self.readers.readers@[i] as int].pos_data.wf() by {
                assert(old(self).readers.readers@[i] == self.readers.readers@[i]);
                assert(before.group.to_set().contains(before.group[i]));
                assert(before.streams.dom().contains(before.group[i]));
            }
            assert(self@.streams =~= before.streams);
            assert(self@.left =~= before.left.remove(pos));
        }
    }

    /// What is stored about a live stream.
    fn get_slot(&self, pos: usize) -> (res: ReaderSlot)
        requires
            self.wf(),
            self@.streams.dom().contains(pos),
        ensures
            res.stream() == self@.streams[pos],
            res.place == Place::Live,
            res.pos_data.wf(),
    {
        proof {
            self.lemma_live(pos);
        }
        let slot = &self.slots[pos];
        ReaderSlot {
            pos_data: CountedIndex { val: slot.pos_data.val, mask: slot.pos_data.mask },
            state: slot.state,
            num_consumers: slot.num_consumers,
            place: Place::Live,
        }
    }

    /// Puts `slot` in the place of a live stream.
    fn replace(&mut self, pos: usize, slot: ReaderSlot)
        requires
            old(self).wf(),
            old(self)@.streams.dom().contains(pos),
            slot.place == Place::Live,
            slot.pos_data.wf(),
        ensures
            final(self).wf(),
            final(self)@ == old(self)@.with_state(pos, slot.stream()),
    {
        proof {
            self.lemma_live(pos);
        }
        self.slots.set(pos, slot);
        proof {
            let before = old(self)@;
            assert forall|p: usize| #[trigger] before.streams.dom().contains(p) implies p < self.slots@.len() by {
                old(self).lemma_live(p);
            }
            assert forall|i: int| 0 <= i < self.readers.readers@.len() implies (
            #[trigger] self.readers.readers@[i]) < self.slots@.len()
                && self.slots@[self.readers.readers@[i] as int].place == Place::Live
                && self.slots@[self.readers.readers@[i] as int].pos_data.wf() by {
                assert(old(self).readers.readers@[i] == self.readers.readers@[i]);
            }
            assert(before.streams.dom() == before.group.to_set());
            assert(self@.streams =~= before.with_state(pos, slot.stream()).streams);
            assert(self@.left =~= before.left);
            assert(self@ =~= before.with_state(pos, slot.stream()));
        }
    }

    /// Adds a stream that stands where `reader` does.
    pub fn add_stream(&mut self, reader: &Reader, manager: &mut MemoryManager) -> (res: Reader)
        requires
            old(self).wf(),
            old(manager).wf(),
            old(self)@.kept_by(old(manager)@),
            old(self)@.streams.dom().contains(reader.pos),
        ensures
            final(self).wf(),
            final(manager).wf(),
            final(self)@.kept_by(final(manager)@),
            !old(self)@.streams.dom().contains(res.pos),
            !old(self)@.left.contains(res.pos),
            final(self)@ == old(self)@.with_stream(
                res.pos,
                old(self)@.streams[reader.pos].count,
                old(self)@.streams[reader.pos].wrap,
            ).recycled(old(manager)@.released()),
            final(manager)@ == old(manager)@.freed(Retired::Group(old(self)@.group)),
    {
        proof {
            self.lemma_live(reader.pos);
        }
        let raw: usize = self.slots[reader.pos].pos_data.load_raw();
        let wrap: Index = self.slots[reader.pos].pos_data.wrap_at();
        let (new_reader, group) = self.subscribe(raw, wrap);
        let ghost left = self@.left;
        let freed = manager.free(ToFree::Group(group));
        proof {
            lemma_kept(left, old(manager)@, Retired::Group(group@));
        }
        self.recycle(freed);
        new_reader
    }

    /// Removes a stream, and says whether none is left.
    pub fn remove_reader(&mut self, reader: &Reader, mem: &mut MemoryManager) -> (res: bool)
        requires
            old(self).wf(),
            old(mem).wf(),
            old(self)@.kept_by(old(mem)@),
            old(self)@.streams.dom().contains(reader.pos),
        ensures
            final(self).wf(),
            final(mem).wf(),
            final(self)@.kept_by(final(mem)@),
            ({
                let mid = old(mem)@.freed(Retired::Group(old(self)@.group));
                &&& final(self)@ == old(self)@.without_stream(reader.pos).recycled(
                    old(mem)@.released(),
                ).recycled(mid.released())
                &&& final(mem)@ == mid.freed(Retired::Pos(reader.pos))
            }),
            res == (final(self)@.group.len() == 0),
    {
        let ghost items = mem@.tofree + mem@.waiting;
        proof {
            if items.contains(Retired::Pos(reader.pos)) {
                let i = choose|i: int| 0 <= i < items.len() && items[i] == Retired::Pos(reader.pos);
                assert(self@.left.contains(reader.pos));
            }
        }
        let group = self.leave(reader.pos);
        let ghost left = self@.left;
        let freed = mem.free(ToFree::Group(group));
        proof {
            lemma_kept(left, old(mem)@, Retired::Group(group@));
        }
        self.recycle(freed);
        let ghost left_next = self@.left;
        let ghost mid = mem@;
        let freed_next = mem.free(ToFree::Pos(reader.pos));
        proof {
            assert(!(mid.tofree + mid.waiting).contains(Retired::Pos(reader.pos)));
            assert(!old(mem)@.released().contains(Retired::Pos(reader.pos)));
            lemma_kept(left_next, mid, Retired::Pos(reader.pos));
        }
        self.recycle(freed_next);
        self.has_readers()
    }
}

impl ReadAttempt {
    /// The position was read on a ring of a valid size.
    pub open spec fn wf(&self) -> bool {
        self.linked.wf()
    }

    /// Moving on needs no test: there is one consumer, or was when the position was read.
    pub open spec fn is_direct(&self, stream: StreamView) -> bool {
        self.state == ReaderState::Single || stream.consumers == 1
    }

    /// Moving on succeeds.
    pub open spec fn succeeds(&self, stream: StreamView) -> bool {
        self.is_direct(stream) || stream.count == self.linked.loaded_vals
    }

    /// What the stream becomes when moving on succeeds.
    pub open spec fn moved(&self, stream: StreamView, by: Index) -> StreamView {
        StreamView {
            count: self.linked.successor(by),
            state: if self.state == ReaderState::Multi && stream.consumers == 1 {
                ReaderState::Single
            } else {
                stream.state
            },
            ..stream
        }
    }

    /// The slot that the position names, and the count that a value there must have.
    pub fn get(&self) -> (res: (usize, usize))
        requires
            self.wf(),
        ensures
            res.0 == self.linked.loaded_vals as int % self.linked.wrap() as int,
            res.0 < self.linked.wrap(),
            res.1 == self.linked.loaded_vals,
    {
        self.linked.get()
    }

    /// Moves the stream on by `by` values from where it was read, unless there are several
    /// consumers and another one has moved it. Then the position is read again.
    pub fn commit_attempt(self, cursor: &mut ReadCursor, by: Index) -> (res: Option<ReadAttempt>)
        requires
            old(cursor).wf(),
            old(cursor)@.streams.dom().contains(self.reader.pos),
        ensures
            final(cursor).wf(),
            ({
                let stream = old(cursor)@.streams[self.reader.pos];
                if self.succeeds(stream) {
                    &&& res is None
                    &&& final(cursor)@ == old(cursor)@.with_state(self.reader.pos, self.moved(stream, by))
                } else {
                    &&& res == Some(
                        ReadAttempt {
                            linked: Transaction { loaded_vals: stream.count, mask: self.linked.mask },
                            reader: self.reader,
                            state: ReaderState::Multi,
                        },
                    )
                    &&& final(cursor)@ == old(cursor)@
                }
            }),
    {
        let reader = self.reader;
        match self.state {
            ReaderState::Single => {
                self.commit_direct(cursor, by);
                None
            },
            ReaderState::Multi => {
                let slot = cursor.get_slot(reader.pos);
                let ghost before = slot.stream();
                if slot.num_consumers == 1 {
                    let mut slot = slot;
                    slot.state = ReaderState::Single;
                    self.linked.commit_direct(&mut slot.pos_data, by);
                    cursor.replace(reader.pos, slot);
                    None
                } else {
                    let mut slot = slot;
                    match self.linked.commit(&mut slot.pos_data, by) {
                        Some(transaction) => {
                            proof {
                                assert(cursor@.streams.dom().contains(reader.pos));
                            }
                            Some(
                                ReadAttempt {
                                    linked: transaction,
                                    reader,
                                    state: ReaderState::Multi,
                                },
                            )
                        },
                        None => {
                            cursor.replace(reader.pos, slot);
                            None
                        },
                    }
                }
            },
        }
    }

    /// Moves the stream on by `by` values from where it was read, whoever has moved it since.
    pub fn commit_direct(self, cursor: &mut ReadCursor, by: Index)
        requires
            old(cursor).wf(),
            old(cursor)@.streams.dom().contains(self.reader.pos),
        ensures
            final(cursor).wf(),
            final(cursor)@ == old(cursor)@.with_state(
                self.reader.pos,
                StreamView {
                    count: self.linked.successor(by),
                    ..old(cursor)@.streams[self.reader.pos]
                },
            ),
    {
        let mut slot = cursor.get_slot(self.reader.pos);
        self.linked.commit_direct(&mut slot.pos_data, by);
        cursor.replace(self.reader.pos, slot);
    }
}

impl Reader {
    /// Reads the position of the stream in order to move it on.
    pub fn load_attempt(&self, cursor: &ReadCursor) -> (res: ReadAttempt)
        requires
            cursor.wf(),
            cursor@.streams.dom().contains(self.pos),
        ensures
            res.wf(),
            res.reader == *self,
            res.linked.loaded_vals == cursor@.streams[self.pos].count,
            res.linked.wrap() == cursor@.streams[self.pos].wrap,
            res.state == cursor@.streams[self.pos].state,
    {
        let slot = cursor.get_slot(self.pos);
        ReadAttempt { linked: slot.pos_data.load_transaction(), reader: *self, state: slot.state }
    }

    /// The count of the next value.
    pub fn load_count(&self, cursor: &ReadCursor) -> (res: usize)
        requires
            cursor.wf(),
            cursor@.streams.dom().contains(self.pos),
        ensures
            res == cursor@.streams[self.pos].count,
    {
        cursor.get_slot(self.pos).pos_data.load_count()
    }

    /// One more consumer of the stream.
    pub fn dup_consumer(&self, cursor: &mut ReadCursor)
        requires
            old(cursor).wf(),
            old(cursor)@.streams.dom().contains(self.pos),
        ensures
            final(cursor).wf(),
            ({
                let stream = old(cursor)@.streams[self.pos];
                final(cursor)@ == old(cursor)@.with_state(
                    self.pos,
                    StreamView {
                        consumers: vstd::wrapping::usize_specs::wrapping_add(stream.consumers, 1),
                        state: if stream.consumers == 1 {
                            ReaderState::Multi
                        } else {
                            stream.state
                        },
                        ..stream
                    },
                )
            }),
    {
        let mut slot = cursor.get_slot(self.pos);
        let before: usize = slot.num_consumers;
        slot.num_consumers = before.wrapping_add(1);
        if before == 1 {
            slot.state = ReaderState::Multi;
        }
        cursor.replace(self.pos, slot);
    }

    /// One consumer of the stream less. Hands back how many there were.
    pub fn remove_consumer(&self, cursor: &mut ReadCursor) -> (res: usize)
        requires
            old(cursor).wf(),
            old(cursor)@.streams.dom().contains(self.pos),
        ensures
            final(cursor).wf(),
            res == old(cursor)@.streams[self.pos].consumers,
            final(cursor)@ == old(cursor)@.with_state(
                self.pos,
                StreamView {
                    consumers: vstd::wrapping::usize_specs::wrapping_sub(res, 1),
                    ..old(cursor)@.streams[self.pos]
                },
            ),
    {
        let mut slot = cursor.get_slot(self.pos);
        let before: usize = slot.num_consumers;
        slot.num_consumers = before.wrapping_sub(1);
        cursor.replace(self.pos, slot);
        before
    }

    /// How many consumers the stream has.
    pub fn get_consumers(&self, cursor: &ReadCursor) -> (res: usize)
        requires
            cursor.wf(),
            cursor@.streams.dom().contains(self.pos),
        ensures
            res == cursor@.streams[self.pos].consumers,
    {
        cursor.get_slot(self.pos).num_consumers
    }

    /// Whether the stream has one consumer. If so, that is noted with the stream.
    pub fn is_single(&self, cursor: &mut ReadCursor) -> (res: bool)
        requires
            old(cursor).wf(),
            old(cursor)@.streams.dom().contains(self.pos),
        ensures
            final(cursor).wf(),
            res == (old(cursor)@.streams[self.pos].consumers == 1),
            res ==> final(cursor)@ == old(cursor)@.with_state(
                self.pos,
                StreamView { state: ReaderState::Single, ..old(cursor)@.streams[self.pos] },
            ),
            !res ==> final(cursor)@ == old(cursor)@,
    {
        let mut slot = cursor.get_slot(self.pos);
        if slot.num_consumers == 1 {
            slot.state = ReaderState::Single;
            cursor.replace(self.pos, slot);
            true
        } else {
            false
        }
    }
}

/// The stream that is furthest behind is found by the counts, whichever laps they are in: streams at
/// `places`, none ahead of a sender at `head` nor too far behind it, are found not to run ahead, and
/// the distance found is that of one of them, and of none a smaller one.
pub proof fn lemma_furthest(
    group: Seq<usize>,
    streams: Map<usize, StreamView>,
    places: Seq<int>,
    head: int,
    diff: int,
)
    requires
        places.len() == group.len(),
        forall|i: int|
            0 <= i < group.len() ==> streams[#[trigger] group[i]].count == crate::countedindex::untagged(
                places[i],
            ) && 0 <= head - places[i] <= MAX_WRAP,
    ensures
        !runs_ahead(group, streams, crate::countedindex::untagged(head)),
        is_max_diff(group, streams, crate::countedindex::untagged(head), diff) <==> {
            &&& forall|i: int| 0 <= i < places.len() ==> head - #[trigger] places[i] <= diff
            &&& if places.len() == 0 {
                diff == 0
            } else {
                exists|i: int| 0 <= i < places.len() && head - #[trigger] places[i] == diff
            }
        },
{
    crate::countedindex::lemma_lap();
    let at = crate::countedindex::untagged(head);
    assert forall|i: int| 0 <= i < group.len() implies crate::countedindex::lead(
        at,
        streams[#[trigger] group[i]].count,
    ) == head - places[i] by {
        crate::countedindex::lemma_lead(head, places[i]);
    }
    if is_max_diff(group, streams, at, diff) {
        assert forall|i: int| 0 <= i < places.len() implies head - #[trigger] places[i] <= diff by {
            assert(crate::countedindex::lead(at, streams[group[i]].count) == head - places[i]);
        }
        if group.len() > 0 {
            let i = choose|i: int|
                0 <= i < group.len() && crate::countedindex::lead(at, streams[#[trigger] group[i]].count)
                    == diff;
            assert(head - places[i] == diff);
        }
    }
    if (forall|i: int| 0 <= i < places.len() ==> head - #[trigger] places[i] <= diff) && places.len() > 0 && (
    exists|i: int| 0 <= i < places.len() && head - #[trigger] places[i] == diff) {
        let i = choose|i: int| 0 <= i < places.len() && head - #[trigger] places[i] == diff;
        assert(crate::countedindex::lead(at, streams[group[i]].count) == diff);
        assert forall|k: int| 0 <= k < group.len() implies crate::countedindex::lead(
            at,
            streams[#[trigger] group[k]].count,
        ) <= diff by {
            assert(head - places[k] <= diff);
        }
    }
}

/// A stream that was found ahead of a sender is ahead of it.
pub proof fn lemma_ahead(group: Seq<usize>, streams: Map<usize, StreamView>, i: int, place: int, head: int)
    requires
        0 <= i < group.len(),
        streams[group[i]].count == crate::countedindex::untagged(place),
        0 < place - head <= MAX_WRAP,
    ensures
        runs_ahead(group, streams, crate::countedindex::untagged(head)),
{
    crate::countedindex::lemma_lap();
    crate::countedindex::lemma_lead(head, place);
    assert(crate::countedindex::lead(crate::countedindex::untagged(head), streams[group[i]].count) > MAX_WRAP);
}

/// Of two consumers of a stream that have read the same position, the second to move the stream on
/// finds that it has moved. A consumer that moves the stream on moves it by as much as it says, and
/// leaves the number of consumers alone.
pub proof fn lemma_one_wins(one: ReadAttempt, other: ReadAttempt, stream: StreamView, by: Index)
    requires
        stream.count < crate::countedindex::MASK_IND,
        0 < by < crate::countedindex::MASK_IND,
        one.linked.loaded_vals == stream.count,
        other.linked.loaded_vals == stream.count,
        other.state == ReaderState::Multi,
        stream.consumers > 1,
    ensures
        one.succeeds(stream),
        !other.succeeds(one.moved(stream, by)),
        one.moved(stream, by).count == (stream.count + by) % (crate::countedindex::MASK_IND as int),
        one.moved(stream, by).consumers == stream.consumers,
        one.moved(stream, by).wrap == stream.wrap,
        one.moved(stream, by).state == stream.state,
{
    crate::countedindex::lemma_second_fails(one.linked, by);
    crate::countedindex::lemma_arithmetic(0, 0, 0, Transaction { loaded_vals: stream.count, mask: 0 }, by);
}

/// A consumer that is alone always moves its stream on, and then knows that it is alone.
pub proof fn lemma_alone_wins(one: ReadAttempt, stream: StreamView, by: Index)
    requires
        stream.consumers == 1,
        one.state == stream.state,
    ensures
        one.succeeds(stream),
        one.moved(stream, by).state == ReaderState::Single,
        one.moved(stream, by).consumers == 1,
{
}

/// Streams come and go one by one: a new one is listed last, at the given count and with one consumer;
/// a removed one is not listed, and its place is set apart; the others stay as they are.
pub proof fn lemma_streams(cursor: CursorView, pos: usize, count: usize, wrap: Index, other: usize)
    requires
        other != pos,
    ensures
        ({
            let come = cursor.with_stream(pos, count, wrap);
            let gone = cursor.without_stream(pos);
            let changed = cursor.with_state(pos, cursor.streams[other]);
            &&& come.group == cursor.group.push(pos)
            &&& come.streams.dom().contains(pos)
            &&& come.streams[pos].count == count && come.streams[pos].wrap == wrap && come.streams[pos].consumers
                == 1
            &&& come.streams[other] == cursor.streams[other] && come.streams.dom().contains(other)
                == cursor.streams.dom().contains(other)
            &&& come.left == cursor.left && come.last_pos == cursor.last_pos
            &&& !gone.streams.dom().contains(pos) && !gone.group.contains(pos)
            &&& gone.left.contains(pos) && gone.left.contains(other) == cursor.left.contains(other)
            &&& gone.group.contains(other) == cursor.group.contains(other)
            &&& gone.streams[other] == cursor.streams[other] && gone.streams.dom().contains(other)
                == cursor.streams.dom().contains(other)
            &&& cursor.group.len() == 1 ==> gone.last_pos == cursor.streams[pos].count
            &&& changed.streams[pos] == cursor.streams[other] && changed.streams[other] == cursor.streams[other]
            &&& changed.group == cursor.group && changed.left == cursor.left && changed.last_pos
                == cursor.last_pos
        }),
{
    crate::lists::lemma_struck(cursor.group, pos);
    assert(crate::lists::struck(cursor.group, pos).contains(pos) <==> cursor.group.contains(pos) && pos != pos);
    assert(crate::lists::struck(cursor.group, pos).contains(other) <==> cursor.group.contains(other) && other
        != pos);
}

/// A consumer that is not alone moves its stream on exactly when nobody else has done so since it read
/// the position.
pub proof fn lemma_moves_if_unmoved(attempt: ReadAttempt, stream: StreamView)
    requires
        attempt.state == ReaderState::Multi,
        stream.consumers != 1,
    ensures
        attempt.succeeds(stream) <==> stream.count == attempt.linked.loaded_vals,
{
}

/// What is released is free again, and nothing else changes.
pub proof fn lemma_recycled(cursor: CursorView, released: Seq<Retired>, pos: usize)
    ensures
        ({
            let after = cursor.recycled(released);
            &&& after.left.contains(pos) <==> cursor.left.contains(pos) && forall|i: int|
                0 <= i < released.len() ==> #[trigger] released[i] != Retired::Pos(pos)
            &&& after.group == cursor.group && after.streams == cursor.streams && after.last_pos
                == cursor.last_pos
        }),
{
    crate::memory::lemma_free_again(cursor.left, released, pos);
}

} // verus!
