//! Pending deadlines, earliest first, each removable from the middle.
//!
//! A binary heap that knows where each timer lies. Every move updates the
//! timer's index, so a cancelled timer leaves without a scan and without a
//! tombstone.
use vstd::prelude::*;

verus! {

/// The index of a timer that is not in the heap.
pub const NOT_QUEUED: usize = usize::MAX;

/// A deadline and the timer that waits for it.
#[derive(Clone, Copy, Debug, PartialEq, Eq, Structural)]
pub struct Entry {
    pub deadline: u64,
    /// Breaks ties so equal deadlines fire in registration order rather than
    /// an arbitrary one, which keeps a paced loop from starving itself.
    pub seq: u64,
    /// The timer, numbered as [`TimerHeap::add_slot`] numbered it.
    pub slot: usize,
}

/// Deadlines come first, registration order second.
pub open spec fn key_le(a: (u64, u64), b: (u64, u64)) -> bool {
    a.0 < b.0 || (a.0 == b.0 && a.1 <= b.1)
}

impl Entry {
    /// What the heap orders by.
    pub open spec fn key(self) -> (u64, u64) {
        (self.deadline, self.seq)
    }

    fn earlier_than(&self, other: &Entry) -> (earlier: bool)
        ensures
            earlier == !key_le(other.key(), self.key()),
    {
        self.deadline < other.deadline || (self.deadline == other.deadline && self.seq < other.seq)
    }
}

/// An indexed heap of [`Entry`]s.
pub struct TimerHeap {
    entries: Vec<Entry>,
    /// Where each timer lies in `entries`, or [`NOT_QUEUED`].
    index: Vec<usize>,
}

/// The place above place `k`.
spec fn parent(k: int) -> int {
    (k - 1) / 2
}

/// The entry at place `k` does not come before the one above it.
spec fn edge_ok(entries: Seq<Entry>, k: int) -> bool {
    k > 0 ==> key_le(entries[parent(k)].key(), entries[k].key())
}

/// If place `k` is below `hole`, its entry does not come before the one above
/// the hole.
spec fn skip_ok(entries: Seq<Entry>, hole: int, k: int) -> bool {
    parent(k) == hole && hole > 0 ==> key_le(entries[parent(hole)].key(), entries[k].key())
}

/// A heap as its users see it.
#[verifier::ext_equal]
pub struct HeapView {
    /// The timers in the heap, with what each is ordered by.
    pub queued: Map<usize, (u64, u64)>,
    /// How many timers there are, queued or not.
    pub slots: nat,
}

impl HeapView {
    /// No queued timer comes before `slot`.
    pub open spec fn is_earliest(self, slot: usize) -> bool {
        &&& self.queued.contains_key(slot)
        &&& forall|other: usize| #[trigger]
            self.queued.contains_key(other) ==> key_le(self.queued[slot], self.queued[other])
    }
}

impl TimerHeap {
    /// Each entry knows its timer and each queued timer its entry.
    spec fn indexed(self) -> bool {
        &&& self.entries@.len() <= self.index@.len()
        &&& self.entries@.len() < usize::MAX
        &&& forall|k: int|
            #![trigger self.entries@[k]]
            0 <= k < self.entries@.len() ==> {
                &&& self.entries@[k].slot < self.index@.len()
                &&& self.index@[self.entries@[k].slot as int] == k
            }
        &&& forall|s: int|
            #![trigger self.index@[s]]
            0 <= s < self.index@.len() && self.index@[s] != NOT_QUEUED ==> {
                &&& self.index@[s] < self.entries@.len()
                &&& self.entries@[self.index@[s] as int].slot == s
            }
    }

    /// No entry comes before the one above it.
    spec fn ordered(self) -> bool {
        forall|k: int| 0 <= k < self.entries@.len() ==> #[trigger] edge_ok(self.entries@, k)
    }

    /// Well-formedness.
    pub closed spec fn wf(self) -> bool {
        self.indexed() && self.ordered()
    }
}

impl View for TimerHeap {
    type V = HeapView;

    closed spec fn view(&self) -> HeapView {
        HeapView {
            queued: Map::new(
                |s: usize| s < self.index@.len() && self.index@[s as int] != NOT_QUEUED,
                |s: usize| self.entries@[self.index@[s as int] as int].key(),
            ),
            slots: self.index@.len(),
        }
    }
}

impl TimerHeap {
    /// The entry at place `index`, for the places below the number of queued
    /// timers.
    pub closed spec fn entry_at(self, index: int) -> Entry {
        self.entries@[index]
    }

    /// How many timers are queued.
    pub closed spec fn queued_len(self) -> nat {
        self.entries@.len()
    }

    /// The timer at the first place.
    pub closed spec fn top(self) -> usize {
        self.entries@[0].slot
    }

    /// Where a timer lies, or [`NOT_QUEUED`].
    pub closed spec fn place_of(self, slot: usize) -> usize {
        self.index@[slot as int]
    }

    /// Places and queued timers correspond one to one.
    pub proof fn lemma_places(self)
        requires
            self.wf(),
        ensures
            forall|s: usize|
                #![trigger self@.queued.contains_key(s)]
                #![trigger self.place_of(s)]
                s < self@.slots ==> (self@.queued.contains_key(s) <==> self.place_of(s)
                    != NOT_QUEUED),
            forall|s: usize|
                #![trigger self@.queued.contains_key(s)]
                self@.queued.contains_key(s) ==> {
                    &&& s < self@.slots
                    &&& self.place_of(s) < self.queued_len()
                    &&& self.entry_at(self.place_of(s) as int).slot == s
                    &&& self.entry_at(self.place_of(s) as int).key() == self@.queued[s]
                },
            forall|k: int|
                #![trigger self.entry_at(k)]
                0 <= k < self.queued_len() ==> {
                    &&& self@.queued.contains_key(self.entry_at(k).slot)
                    &&& self@.queued[self.entry_at(k).slot] == self.entry_at(k).key()
                    &&& self.place_of(self.entry_at(k).slot) == k
                },
    {
    }

    /// Nothing comes before the entry at the top.
    proof fn lemma_top(self, k: int)
        requires
            self.ordered(),
            0 <= k < self.entries@.len(),
        ensures
            key_le(self.entries@[0].key(), self.entries@[k].key()),
        decreases k,
    {
        if k > 0 {
            assert(edge_ok(self.entries@, k));
            self.lemma_top(parent(k));
        }
    }

    /// The entry at the top is due first; without one nothing is queued.
    proof fn lemma_earliest(self)
        requires
            self.wf(),
        ensures
            self.entries@.len() == 0 <==> self@.queued == Map::<usize, (u64, u64)>::empty(),
            self.entries@.len() > 0 ==> self@.is_earliest(self.entries@[0].slot),
    {
        if self.entries@.len() == 0 {
            assert(self@.queued =~= Map::empty());
        } else {
            let top = self.entries@[0];
            assert(self@.queued.contains_key(top.slot));
            assert forall|other: usize| #[trigger] self@.queued.contains_key(other) implies key_le(
                self@.queued[top.slot],
                self@.queued[other],
            ) by {
                self.lemma_top(self.index@[other as int] as int);
            }
        }
    }

    /// An empty heap that knows no timers.
    pub fn new() -> (heap: Self)
        ensures
            heap.wf(),
            heap@ == (HeapView { queued: Map::empty(), slots: 0 }),
    {
        let heap = TimerHeap { entries: Vec::new(), index: Vec::new() };
        assert(heap@.queued =~= Map::empty());
        heap
    }

    /// Make room for one more timer, which is not queued yet.
    pub fn add_slot(&mut self) -> (slot: usize)
        requires
            old(self).wf(),
            old(self)@.slots < usize::MAX,
        ensures
            final(self).wf(),
            slot == old(self)@.slots,
            final(self)@ == (HeapView { slots: old(self)@.slots + 1, ..old(self)@ }),
    {
        let slot: usize = self.index.len();
        self.index.push(NOT_QUEUED);
        assert(self@.queued =~= old(self)@.queued);
        slot
    }

    /// The timer that is due first.
    pub fn peek(&self) -> (first: Option<Entry>)
        requires
            self.wf(),
        ensures
            first is None <==> self.queued_len() == 0,
            first is None <==> self@.queued =~= Map::empty(),
            first is Some ==> {
                &&& first->0.slot == self.top()
                &&& self@.is_earliest(first->0.slot)
                &&& self@.queued[first->0.slot] == first->0.key()
            },
    {
        proof {
            self.lemma_earliest();
        }
        if self.entries.len() == 0 {
            None
        } else {
            Some(self.entries[0])
        }
    }

    /// Where a timer lies, or [`NOT_QUEUED`].
    pub fn index_of(&self, slot: usize) -> (index: usize)
        requires
            self.wf(),
            slot < self@.slots,
        ensures
            index == self.place_of(slot),
            index == NOT_QUEUED <==> !self@.queued.contains_key(slot),
    {
        self.index[slot]
    }

    fn swap(&mut self, a: usize, b: usize)
        requires
            old(self).indexed(),
            a < old(self).entries@.len(),
            b < old(self).entries@.len(),
        ensures
            final(self).indexed(),
            final(self)@ == old(self)@,
            final(self).entries@ == old(self).entries@.update(a as int, old(self).entries@[b as int]).update(
                b as int,
                old(self).entries@[a as int],
            ),
    {
        let x = self.entries[a];
        let y = self.entries[b];
        self.entries[a] = y;
        self.entries[b] = x;
        self.index[y.slot] = a;
        self.index[x.slot] = b;
        assert forall|s: int| 0 <= s < self.index@.len() && self.index@[s] != NOT_QUEUED implies ({
            &&& #[trigger] self.index@[s] < self.entries@.len()
            &&& self.entries@[self.index@[s] as int].slot == s
        }) by {
            assert(old(self).index@[s] == old(self).index@[s]);
        }
        assert(self@.queued =~= old(self)@.queued);
    }

    fn sift_up(&mut self, start: usize)
        requires
            old(self).indexed(),
            start < old(self).entries@.len(),
            forall|k: int|
                0 <= k < old(self).entries@.len() && k != start ==> #[trigger] edge_ok(
                    old(self).entries@,
                    k,
                ),
            forall|k: int|
                0 < k < old(self).entries@.len() ==> #[trigger] skip_ok(
                    old(self).entries@,
                    start as int,
                    k,
                ),
        ensures
            final(self).wf(),
            final(self)@ == old(self)@,
            final(self).entries@.len() == old(self).entries@.len(),
    {
        let mut index: usize = start;
        while index > 0
            invariant
                self.indexed(),
                self@ == old(self)@,
                self.entries@.len() == old(self).entries@.len(),
                index < self.entries@.len(),
                forall|k: int|
                    0 <= k < self.entries@.len() && k != index ==> #[trigger] edge_ok(
                        self.entries@,
                        k,
                    ),
                forall|k: int|
                    0 < k < self.entries@.len() ==> #[trigger] skip_ok(
                        self.entries@,
                        index as int,
                        k,
                    ),
            ensures
                self.ordered(),
                self.indexed(),
                self@ == old(self)@,
                self.entries@.len() == old(self).entries@.len(),
            decreases index,
        {
            let above: usize = (index - 1) / 2;
            if !self.entries[index].earlier_than(&self.entries[above]) {
                assert(edge_ok(self.entries@, index as int));
                break;
            }
            let ghost before = self.entries@;
            self.swap(index, above);
            proof {
                assert forall|k: int| 0 <= k < self.entries@.len() && k != above implies #[trigger] edge_ok(
                    self.entries@,
                    k,
                ) by {
                    assert(edge_ok(before, k) || k == index);
                    assert(skip_ok(before, index as int, k) || k == 0);
                }
                assert forall|k: int| 0 < k < self.entries@.len() implies #[trigger] skip_ok(
                    self.entries@,
                    above as int,
                    k,
                ) by {
                    assert(edge_ok(before, above as int));
                    if k != index {
                        assert(edge_ok(before, k));
                    }
                }
            }
            index = above;
        }
    }

    fn sift_down(&mut self, start: usize)
        requires
            old(self).indexed(),
            start < old(self).entries@.len(),
            forall|k: int|
                0 <= k < old(self).entries@.len() && !(k > 0 && parent(k) == start)
                    ==> #[trigger] edge_ok(old(self).entries@, k),
            forall|k: int|
                0 < k < old(self).entries@.len() ==> #[trigger] skip_ok(
                    old(self).entries@,
                    start as int,
                    k,
                ),
        ensures
            final(self).wf(),
            final(self)@ == old(self)@,
            final(self).entries@.len() == old(self).entries@.len(),
    {
        let mut index: usize = start;
        while index < self.entries.len() / 2
            invariant
                self.indexed(),
                self@ == old(self)@,
                self.entries@.len() == old(self).entries@.len(),
                index < self.entries@.len(),
                forall|k: int|
                    0 <= k < self.entries@.len() && !(k > 0 && parent(k) == index)
                        ==> #[trigger] edge_ok(self.entries@, k),
                forall|k: int|
                    0 < k < self.entries@.len() ==> #[trigger] skip_ok(
                        self.entries@,
                        index as int,
                        k,
                    ),
            ensures
                self.ordered(),
                self.indexed(),
                self@ == old(self)@,
                self.entries@.len() == old(self).entries@.len(),
            decreases self.entries@.len() - index,
        {
            let left: usize = 2 * index + 1;
            let right: usize = left + 1;
            let child: usize = if right < self.entries.len() && self.entries[right].earlier_than(
                &self.entries[left],
            ) {
                right
            } else {
                left
            };
            if !self.entries[child].earlier_than(&self.entries[index]) {
                assert forall|k: int| 0 <= k < self.entries@.len() implies #[trigger] edge_ok(
                    self.entries@,
                    k,
                ) by {
                    if k > 0 && parent(k) == index {
                        assert(k == left || k == right);
                    }
                }
                break;
            }
            let ghost before = self.entries@;
            self.swap(index, child);
            proof {
                assert forall|k: int|
                    0 <= k < self.entries@.len() && !(k > 0 && parent(k)
                        == child) implies #[trigger] edge_ok(self.entries@, k) by {
                    assert(edge_ok(before, k) || parent(k) == index);
                    assert(skip_ok(before, index as int, child as int));
                    if k > 0 && parent(k) == index {
                        assert(k == left || k == right);
                    }
                }
                assert forall|k: int| 0 < k < self.entries@.len() implies #[trigger] skip_ok(
                    self.entries@,
                    child as int,
                    k,
                ) by {
                    if parent(k) == child {
                        assert(edge_ok(before, k));
                    }
                }
            }
            index = child;
        }
    }

    /// There are fewer entries than timers while some timer is not queued.
    proof fn lemma_room(self, slot: int)
        requires
            self.indexed(),
            0 <= slot < self.index@.len(),
            self.index@[slot] == NOT_QUEUED,
        ensures
            self.entries@.len() < self.index@.len(),
    {
        let taken = self.entries@.map_values(|entry: Entry| entry.slot as int);
        assert forall|i: int, j: int|
            0 <= i < taken.len() && 0 <= j < taken.len() && i != j implies #[trigger] taken[i]
            != #[trigger] taken[j] by {
            assert(self.index@[self.entries@[i].slot as int] == i);
            assert(self.index@[self.entries@[j].slot as int] == j);
        }
        taken.unique_seq_to_set();
        let all = vstd::set_lib::set_int_range(0, self.index@.len() as int);
        vstd::set_lib::lemma_int_range(0, self.index@.len() as int);
        let free = all.remove(slot);
        assert(taken.to_set().subset_of(free)) by {
            assert forall|s: int| taken.to_set().contains(s) implies free.contains(s) by {
                let k = taken.index_of(s);
                assert(self.entries@[k].slot == s);
                assert(self.index@[self.entries@[k].slot as int] == k);
            }
        }
        vstd::set_lib::lemma_len_subset(taken.to_set(), free);
    }

    /// Queue a timer.
    pub fn push(&mut self, entry: Entry)
        requires
            old(self).wf(),
            entry.slot < old(self)@.slots,
            !old(self)@.queued.contains_key(entry.slot),
            old(self)@.slots < usize::MAX,
        ensures
            final(self).wf(),
            final(self)@ == (HeapView {
                queued: old(self)@.queued.insert(entry.slot, entry.key()),
                ..old(self)@
            }),
            final(self).queued_len() == old(self).queued_len() + 1,
    {
        proof {
            self.lemma_room(entry.slot as int);
        }
        let index: usize = self.entries.len();
        self.entries.push(entry);
        self.index[entry.slot] = index;
        proof {
            assert forall|s: int| 0 <= s < self.index@.len() && self.index@[s] != NOT_QUEUED implies ({
                &&& #[trigger] self.index@[s] < self.entries@.len()
                &&& self.entries@[self.index@[s] as int].slot == s
            }) by {
                assert(old(self).index@[s] == old(self).index@[s]);
            }
            assert forall|k: int| 0 <= k < self.entries@.len() && k != index implies #[trigger] edge_ok(
                self.entries@,
                k,
            ) by {
                assert(edge_ok(old(self).entries@, k));
            }
            assert(self@.queued =~= old(self)@.queued.insert(entry.slot, entry.key()));
        }
        self.sift_up(index);
    }

    /// Take the timer at place `index` out.
    pub fn remove(&mut self, index: usize) -> (entry: Entry)
        requires
            old(self).wf(),
            index < old(self).queued_len(),
        ensures
            final(self).wf(),
            entry == old(self).entry_at(index as int),
            old(self)@.queued.contains_key(entry.slot),
            old(self)@.queued[entry.slot] == entry.key(),
            final(self)@ == (HeapView {
                queued: old(self)@.queued.remove(entry.slot),
                ..old(self)@
            }),
            final(self).queued_len() == old(self).queued_len() - 1,
    {
        let entry = self.entries.swap_remove(index);
        self.index[entry.slot] = NOT_QUEUED;
        if index < self.entries.len() {
            let moved = self.entries[index];
            self.index[moved.slot] = index;
            proof {
                let before = old(self).entries@;
                let after = self.entries@;
                assert(after =~= before.update(index as int, before.last()).drop_last());
                assert(self.indexed()) by {
                    assert forall|s: int|
                        0 <= s < self.index@.len() && self.index@[s] != NOT_QUEUED implies ({
                        &&& #[trigger] self.index@[s] < self.entries@.len()
                        &&& self.entries@[self.index@[s] as int].slot == s
                    }) by {
                        assert(old(self).index@[s] == old(self).index@[s]);
                    }
                }
                assert(self@.queued =~= old(self)@.queued.remove(entry.slot));
                assert forall|k: int|
                    0 <= k < after.len() && k != index && !(k > 0 && parent(k)
                        == index) implies #[trigger] edge_ok(after, k) by {
                    assert(edge_ok(before, k));
                }
                assert forall|k: int| 0 < k < after.len() implies #[trigger] skip_ok(
                    after,
                    index as int,
                    k,
                ) by {
                    if parent(k) == index && index > 0 {
                        assert(edge_ok(before, k));
                        assert(edge_ok(before, index as int));
                    }
                }
            }
            if index > 0 && self.entries[index].earlier_than(&self.entries[(index - 1) / 2]) {
                proof {
                    assert forall|k: int|
                        0 <= k < self.entries@.len() && k != index implies #[trigger] edge_ok(
                        self.entries@,
                        k,
                    ) by {
                        assert(skip_ok(self.entries@, index as int, k) || k == 0);
                    }
                }
                self.sift_up(index);
            } else {
                assert(edge_ok(self.entries@, index as int));
                self.sift_down(index);
            }
        } else {
            proof {
                let before = old(self).entries@;
                let after = self.entries@;
                assert(after =~= before.drop_last());
                assert forall|s: int|
                    0 <= s < self.index@.len() && self.index@[s] != NOT_QUEUED implies ({
                    &&& #[trigger] self.index@[s] < self.entries@.len()
                    &&& self.entries@[self.index@[s] as int].slot == s
                }) by {
                    assert(old(self).index@[s] == old(self).index@[s]);
                }
                assert forall|k: int| 0 <= k < after.len() implies #[trigger] edge_ok(after, k) by {
                    assert(edge_ok(before, k));
                }
                assert(self@.queued =~= old(self)@.queued.remove(entry.slot));
            }
        }
        entry
    }

    /// Take the timer that is due first out.
    pub fn pop(&mut self) -> (first: Option<Entry>)
        requires
            old(self).wf(),
        ensures
            final(self).wf(),
            first is None <==> old(self).queued_len() == 0,
            first is None <==> old(self)@.queued =~= Map::empty(),
            first is None ==> final(self)@ == old(self)@,
            first is Some ==> {
                &&& first->0.slot == old(self).top()
                &&& old(self)@.is_earliest(first->0.slot)
                &&& old(self)@.queued[first->0.slot] == first->0.key()
                &&& final(self)@ == (HeapView {
                    queued: old(self)@.queued.remove(first->0.slot),
                    ..old(self)@
                })
                &&& final(self).queued_len() == old(self).queued_len() - 1
            },
    {
        proof {
            self.lemma_earliest();
        }
        if self.entries.len() == 0 {
            None
        } else {
            Some(self.remove(0))
        }
    }
}

impl Default for TimerHeap {
    fn default() -> (heap: Self)
        ensures
            heap.wf(),
            heap@ == (HeapView { queued: Map::empty(), slots: 0 }),
    {
        TimerHeap::new()
    }
}

/// The timer at the top comes before every other: none in the heap has an
/// earlier deadline, nor the same one and an earlier place.
pub proof fn law_the_top_is_due_first(heap: HeapView, slot: usize, other: usize)
    requires
        heap.is_earliest(slot),
        heap.queued.contains_key(other),
    ensures
        heap.queued.contains_key(slot),
        heap.queued[slot].0 <= heap.queued[other].0,
        heap.queued[slot].0 == heap.queued[other].0 ==> heap.queued[slot].1
            <= heap.queued[other].1,
{
}

} // verus!
