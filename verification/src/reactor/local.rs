//! Running futures on the thread that owns the poller.
use vstd::prelude::*;

verus! {

/// The end of a ready chain.
pub const END: u32 = u32::MAX;

/// One task's place in the set: its link, and whether it is queued.
struct Slot {
    /// The next woken task after this one, while this one is on a chain.
    next: u32,
    /// Set while the task is on a chain. A second wake before the task is
    /// polled is then free rather than a duplicate entry.
    queued: bool,
    /// The task still holds a future. The slot of a finished task stays:
    /// something may hold its waker and wake it, and the walk has to be able
    /// to read the link and carry on to whatever is behind it.
    unfinished: bool,
}

/// Which futures of a set are to be polled, and in what order.
///
/// A waker carries its own index and puts it on the ready chain, so waking is
/// a push and polling drains what was pushed. Nothing is scanned, and a task
/// that nothing happened to is not touched at all.
pub struct TaskSet {
    slots: Vec<Slot>,
    /// The most recently woken task, or [`END`].
    head: u32,
    /// Where the walk over the chain that was taken last has got to.
    cursor: u32,
    /// Tasks that have not finished, so readiness is not a count.
    left: usize,
    chain: Ghost<Seq<u32>>,
    walk: Ghost<Seq<u32>>,
}

/// A [`TaskSet`] as its users see it.
#[verifier::ext_equal]
pub struct TaskSetView {
    /// For each task, whether it has not finished.
    pub unfinished: Seq<bool>,
    /// The woken tasks, the most recent first.
    pub chain: Seq<u32>,
    /// What is left of the pass that is under way.
    pub walk: Seq<u32>,
}

/// How many of the flags are set.
pub open spec fn count(flags: Seq<bool>) -> nat
    decreases flags.len(),
{
    if flags.len() == 0 {
        0
    } else {
        count(flags.drop_last()) + (if flags.last() { 1nat } else { 0nat })
    }
}

/// How many tasks at the front of `walk` have finished.
pub open spec fn finished_prefix(walk: Seq<u32>, unfinished: Seq<bool>) -> nat
    decreases walk.len(),
{
    if walk.len() == 0 || unfinished[walk[0] as int] {
        0
    } else {
        1 + finished_prefix(walk.drop_first(), unfinished)
    }
}

impl TaskSetView {
    /// A set that never had a task.
    pub open spec fn empty() -> Self {
        TaskSetView { unfinished: Seq::empty(), chain: Seq::empty(), walk: Seq::empty() }
    }

    /// The task is to be polled, in this pass or the next.
    pub open spec fn queued(self, index: u32) -> bool {
        self.chain.contains(index) || self.walk.contains(index)
    }

    /// A new task is on the chain: it is owed a first poll.
    pub open spec fn pushed(self) -> Self {
        TaskSetView {
            unfinished: self.unfinished.push(true),
            chain: seq![self.unfinished.len() as u32] + self.chain,
            ..self
        }
    }

    /// The task is on the chain, unless it was queued already.
    pub open spec fn woken(self, index: u32) -> Self {
        if self.queued(index) {
            self
        } else {
            TaskSetView { chain: seq![index] + self.chain, ..self }
        }
    }

    /// The whole chain has been taken for a pass.
    pub open spec fn begun(self) -> Self {
        TaskSetView { chain: Seq::empty(), walk: self.chain, ..self }
    }

    /// The task has finished.
    pub open spec fn finished(self, index: u32) -> Self {
        TaskSetView { unfinished: self.unfinished.update(index as int, false), ..self }
    }

    /// How far into the walk the next task to poll is.
    pub open spec fn skipped(self) -> nat {
        finished_prefix(self.walk, self.unfinished)
    }

    /// The task that the pass polls next, if one is left to poll.
    pub open spec fn next_task(self) -> Option<u32> {
        if self.skipped() < self.walk.len() {
            Some(self.walk[self.skipped() as int])
        } else {
            None
        }
    }

    /// The pass has moved on to its next task, past what had finished.
    pub open spec fn advanced(self) -> Self {
        TaskSetView {
            walk: if self.skipped() < self.walk.len() {
                self.walk.skip(self.skipped() as int + 1)
            } else {
                Seq::empty()
            },
            ..self
        }
    }

    /// What holds of every set: nothing is queued twice, and only what is
    /// there.
    pub open spec fn consistent(self) -> bool {
        &&& (self.chain + self.walk).no_duplicates()
        &&& forall|i: int|
            #![trigger self.chain[i]]
            0 <= i < self.chain.len() ==> self.chain[i] < self.unfinished.len()
        &&& forall|i: int|
            #![trigger self.walk[i]]
            0 <= i < self.walk.len() ==> self.walk[i] < self.unfinished.len()
    }
}

impl TaskSet {
    /// Place `i` of a chain leads to the next.
    spec fn linked(self, chain: Seq<u32>, i: int) -> bool {
        &&& chain[i] < self.slots@.len()
        &&& self.slots@[chain[i] as int].queued
        &&& self.slots@[chain[i] as int].next == (if i + 1 == chain.len() {
            END
        } else {
            chain[i + 1]
        })
    }

    /// A chain is threaded through its slots, starting at `first`.
    spec fn threaded(self, first: u32, chain: Seq<u32>) -> bool {
        &&& first == (if chain.len() == 0 { END } else { chain[0] })
        &&& forall|i: int| 0 <= i < chain.len() ==> #[trigger] self.linked(chain, i)
    }

    spec fn flags(self) -> Seq<bool> {
        self.slots@.map_values(|slot: Slot| slot.unfinished)
    }

    /// Well-formedness.
    pub closed spec fn wf(self) -> bool {
        &&& self.slots@.len() <= END
        &&& self.threaded(self.head, self.chain@)
        &&& self.threaded(self.cursor, self.walk@)
        &&& (self.chain@ + self.walk@).no_duplicates()
        &&& forall|k: int|
            #![trigger self.slots@[k]]
            0 <= k < self.slots@.len() && self.slots@[k].queued ==> self.chain@.contains(k as u32)
                || self.walk@.contains(k as u32)
        &&& self.left == count(self.flags())
    }
}

impl View for TaskSet {
    type V = TaskSetView;

    closed spec fn view(&self) -> TaskSetView {
        TaskSetView { unfinished: self.flags(), chain: self.chain@, walk: self.walk@ }
    }
}

proof fn lemma_count_update(flags: Seq<bool>, k: int)
    requires
        0 <= k < flags.len(),
        flags[k],
    ensures
        count(flags.update(k, false)) == count(flags) - 1,
        count(flags) > 0,
    decreases flags.len(),
{
    let after = flags.update(k, false);
    if k == flags.len() - 1 {
        assert(after.drop_last() =~= flags.drop_last());
    } else {
        assert(after.drop_last() =~= flags.drop_last().update(k, false));
        lemma_count_update(flags.drop_last(), k);
    }
}

/// A count is at most the number of flags.
pub proof fn lemma_count_bound(flags: Seq<bool>)
    ensures
        count(flags) <= flags.len(),
    decreases flags.len(),
{
    if flags.len() > 0 {
        lemma_count_bound(flags.drop_last());
    }
}

impl TaskSet {
    /// Nothing in a set is queued twice, and nothing that is not there.
    pub proof fn lemma_consistent(self)
        requires
            self.wf(),
        ensures
            self@.consistent(),
            self@.unfinished.len() <= END,
    {
        assert forall|i: int| 0 <= i < self@.chain.len() implies #[trigger] self@.chain[i]
            < self@.unfinished.len() by {
            assert(self.linked(self.chain@, i));
        }
        assert forall|i: int| 0 <= i < self@.walk.len() implies #[trigger] self@.walk[i]
            < self@.unfinished.len() by {
            assert(self.linked(self.walk@, i));
        }
    }

    /// A slot is queued exactly while it is on a chain.
    proof fn lemma_queued(self, index: u32)
        requires
            self.wf(),
            index < self.slots@.len(),
        ensures
            self.slots@[index as int].queued == self@.queued(index),
    {
        if self.chain@.contains(index) {
            assert(self.linked(self.chain@, self.chain@.index_of(index)));
        }
        if self.walk@.contains(index) {
            assert(self.linked(self.walk@, self.walk@.index_of(index)));
        }
        assert(self.slots@[index as int] == self.slots@[index as int]);
    }

    /// An empty set.
    pub fn new() -> (set: Self)
        ensures
            set.wf(),
            set@ == TaskSetView::empty(),
    {
        let set = TaskSet {
            slots: Vec::new(),
            head: END,
            cursor: END,
            left: 0,
            chain: Ghost(Seq::empty()),
            walk: Ghost(Seq::empty()),
        };
        assert(set@ =~= TaskSetView::empty());
        set
    }

    /// How many tasks have not finished.
    pub fn len(&self) -> (left: usize)
        requires
            self.wf(),
        ensures
            left == count(self@.unfinished),
    {
        self.left
    }

    /// Whether every task has finished, which includes never having any.
    pub fn is_empty(&self) -> (empty: bool)
        requires
            self.wf(),
        ensures
            empty == (count(self@.unfinished) == 0),
    {
        self.left == 0
    }

    /// Add a task, which is polled once the set next is. Its number comes back.
    pub fn push(&mut self) -> (index: u32)
        requires
            old(self).wf(),
            old(self)@.unfinished.len() < END,
        ensures
            final(self).wf(),
            index == old(self)@.unfinished.len(),
            final(self)@ == old(self)@.pushed(),
    {
        let index: u32 = self.slots.len() as u32;
        proof {
            self.lemma_consistent();
            lemma_count_bound(self.flags());
        }
        self.slots.push(Slot { next: self.head, queued: true, unfinished: true });
        self.head = index;
        self.left = self.left + 1;
        self.chain = Ghost(seq![index] + self.chain@);
        proof {
            assert(self.flags().drop_last() =~= old(self).flags());
            assert(self.flags() =~= old(self).flags().push(true));
            self.lemma_prepended(*old(self), index);
        }
        index
    }

    /// Putting an unqueued slot in front of the chain keeps the set threaded.
    proof fn lemma_prepended(self, before: Self, index: u32)
        requires
            before.wf(),
            index < self.slots@.len(),
            before.slots@.len() <= self.slots@.len() <= END,
            index < before.slots@.len() || (index == before.slots@.len() && self.slots@.len()
                == index + 1),
            index < before.slots@.len() ==> self.slots@.len() == before.slots@.len(),
            !before.chain@.contains(index),
            !before.walk@.contains(index),
            forall|k: int|
                0 <= k < before.slots@.len() && k != index ==> #[trigger] self.slots@[k]
                    == before.slots@[k],
            self.slots@[index as int].queued,
            self.slots@[index as int].next == before.head,
            self.head == index,
            self.cursor == before.cursor,
            self.walk == before.walk,
            self.chain@ == seq![index] + before.chain@,
            self.left == count(self.flags()),
        ensures
            self.wf(),
    {
        let chain = self.chain@;
        let walk = self.walk@;
        assert forall|i: int| 0 <= i < chain.len() implies #[trigger] self.linked(chain, i) by {
            if i > 0 {
                assert(before.linked(before.chain@, i - 1));
                assert(chain[i] == before.chain@[i - 1]);
                assert(before.chain@.contains(chain[i]));
            }
        }
        assert forall|i: int| 0 <= i < walk.len() implies #[trigger] self.linked(walk, i) by {
            assert(before.linked(walk, i));
            assert(walk.contains(walk[i]));
        }
        let both = before.chain@ + walk;
        assert(chain + walk =~= seq![index] + both);
        assert(!both.contains(index)) by {
            if both.contains(index) {
                let k = both.index_of(index);
                if k < before.chain@.len() {
                    assert(before.chain@[k] == index);
                } else {
                    assert(walk[k - before.chain@.len()] == index);
                }
            }
        }
        assert((chain + walk).no_duplicates());
        assert forall|k: int| 0 <= k < self.slots@.len() && (#[trigger] self.slots@[k]).queued implies chain.contains(
            k as u32,
        ) || walk.contains(k as u32) by {
            if k == index {
                assert(chain[0] == index);
            } else {
                assert(before.slots@[k].queued);
                if before.chain@.contains(k as u32) {
                    assert(chain[before.chain@.index_of(k as u32) + 1] == k as u32);
                }
            }
        }
    }

    /// Queue a task because something happened to it. A task that is queued
    /// already is left where it is: the poll that is coming will see whatever
    /// this wake was about. Whether the set's own waker is to be called comes
    /// back.
    pub fn wake(&mut self, index: u32) -> (wake_parent: bool)
        requires
            old(self).wf(),
            index < old(self)@.unfinished.len(),
        ensures
            final(self).wf(),
            final(self)@ == old(self)@.woken(index),
            wake_parent == !old(self)@.queued(index),
    {
        proof {
            self.lemma_queued(index);
        }
        if self.slots[index as usize].queued {
            return false;
        }
        let unfinished = self.slots[index as usize].unfinished;
        self.slots[index as usize] = Slot { next: self.head, queued: true, unfinished };
        self.head = index;
        self.chain = Ghost(seq![index] + self.chain@);
        proof {
            assert(self.flags() =~= old(self).flags());
            self.lemma_prepended(*old(self), index);
        }
        true
    }

    /// Start a pass: the whole chain is taken at once. A task being polled may
    /// wake itself, and letting it push onto a chain that is still being
    /// walked would never end; anything woken during the pass is picked up by
    /// the next one.
    pub fn begin(&mut self)
        requires
            old(self).wf(),
            old(self)@.walk.len() == 0,
        ensures
            final(self).wf(),
            final(self)@ == old(self)@.begun(),
            final(self)@.walk == old(self)@.chain,
            final(self)@.chain.len() == 0,
            final(self)@.unfinished == old(self)@.unfinished,
    {
        self.cursor = self.head;
        self.head = END;
        self.walk = Ghost(self.chain@);
        self.chain = Ghost(Seq::empty());
        proof {
            let walk = self.walk@;
            assert forall|i: int| 0 <= i < walk.len() implies #[trigger] self.linked(walk, i) by {
                assert(old(self).linked(walk, i));
            }
            assert(self.chain@ + walk =~= old(self).chain@ + old(self).walk@);
            assert(self.flags() =~= old(self).flags());
        }
    }

    /// The next task of this pass that is to be polled. Finished tasks on the
    /// way to it are passed over. From here on a wake queues the task again.
    pub fn next(&mut self) -> (task: Option<u32>)
        requires
            old(self).wf(),
        ensures
            final(self).wf(),
            task == old(self)@.next_task(),
            final(self)@ == old(self)@.advanced(),
            task is Some ==> {
                &&& task->0 < final(self)@.unfinished.len()
                &&& final(self)@.unfinished[task->0 as int]
                &&& !final(self)@.queued(task->0)
            },
    {
        let ghost before = self@;
        let ghost mut passed: int = 0;
        proof {
            assert(before.walk.skip(0) =~= before.walk);
        }
        while self.cursor != END
            invariant
                self.wf(),
                before == old(self)@,
                self@.chain == before.chain,
                self@.unfinished == before.unfinished,
                0 <= passed <= before.walk.len(),
                self@.walk == before.walk.skip(passed),
                before.skipped() == passed + finished_prefix(
                    before.walk.skip(passed),
                    before.unfinished,
                ),
            decreases before.walk.len() - passed,
        {
            let index: u32 = self.cursor;
            proof {
                assert(self.walk@.len() > 0);
                assert(self.linked(self.walk@, 0));
                assert(before.walk.skip(passed).drop_first() =~= before.walk.skip(passed + 1));
            }
            let unfinished = self.slots[index as usize].unfinished;
            assert(unfinished == self@.unfinished[index as int]);
            self.advance();
            if unfinished {
                assert(self@ =~= before.advanced());
                return Some(index);
            }
            proof {
                passed = passed + 1;
            }
        }
        proof {
            assert(self.walk@.len() == 0) by {
                if self.walk@.len() > 0 {
                    assert(self.linked(self.walk@, 0));
                }
            }
            assert(self@ =~= before.advanced());
        }
        None
    }

    /// Take the task that the walk has got to off it.
    fn advance(&mut self)
        requires
            old(self).wf(),
            old(self).walk@.len() > 0,
        ensures
            final(self).wf(),
            final(self)@ == (TaskSetView { walk: old(self)@.walk.drop_first(), ..old(self)@ }),
            !final(self)@.queued(old(self)@.walk[0]),
    {
        let ghost walk = self.walk@;
        let ghost chain = self.chain@;
        proof {
            assert(self.linked(walk, 0));
        }
        let index: u32 = self.cursor;
        let following: u32 = self.slots[index as usize].next;
        let unfinished = self.slots[index as usize].unfinished;
        self.slots[index as usize] = Slot { next: following, queued: false, unfinished };
        self.cursor = following;
        self.walk = Ghost(walk.drop_first());
        proof {
            let rest = self.walk@;
            let both = chain + walk;
            assert(both[chain.len() as int] == index);
            assert forall|i: int| 0 <= i < rest.len() implies #[trigger] self.linked(rest, i) by {
                assert(old(self).linked(walk, i + 1));
                assert(rest[i] == walk[i + 1]);
                assert(both[chain.len() + i + 1] == rest[i]);
            }
            assert forall|i: int| 0 <= i < chain.len() implies #[trigger] self.linked(chain, i) by {
                assert(old(self).linked(chain, i));
                assert(both[i] == chain[i]);
            }
            let fewer = chain + rest;
            assert forall|i: int| 0 <= i < fewer.len() implies #[trigger] fewer[i] == both[if i
                < chain.len() {
                i
            } else {
                i + 1
            }] by {}
            assert(fewer.no_duplicates());
            assert forall|k: int| 0 <= k < self.slots@.len() && (#[trigger] self.slots@[k]).queued implies chain.contains(
                k as u32,
            ) || rest.contains(k as u32) by {
                assert(old(self).slots@[k].queued);
                if walk.contains(k as u32) {
                    let m = walk.index_of(k as u32);
                    assert(m > 0);
                    assert(rest[m - 1] == k as u32);
                }
            }
            assert(!chain.contains(index)) by {
                if chain.contains(index) {
                    assert(both[chain.index_of(index)] == index);
                }
            }
            assert(!rest.contains(index)) by {
                if rest.contains(index) {
                    assert(both[chain.len() + rest.index_of(index) + 1] == index);
                }
            }
            assert(self.flags() =~= old(self).flags());
        }
    }

    /// A task that was just polled has finished. Its slot stays, so that a
    /// late wake still has a link.
    pub fn finish(&mut self, index: u32)
        requires
            old(self).wf(),
            index < old(self)@.unfinished.len(),
            old(self)@.unfinished[index as int],
        ensures
            final(self).wf(),
            final(self)@ == old(self)@.finished(index),
    {
        let next: u32 = self.slots[index as usize].next;
        let queued = self.slots[index as usize].queued;
        self.slots[index as usize] = Slot { next, queued, unfinished: false };
        proof {
            lemma_count_update(old(self).flags(), index as int);
            assert(self.flags() =~= old(self).flags().update(index as int, false));
        }
        self.left = self.left - 1;
        proof {
            let chain = self.chain@;
            let walk = self.walk@;
            assert forall|i: int| 0 <= i < chain.len() implies #[trigger] self.linked(chain, i) by {
                assert(old(self).linked(chain, i));
            }
            assert forall|i: int| 0 <= i < walk.len() implies #[trigger] self.linked(walk, i) by {
                assert(old(self).linked(walk, i));
            }
            assert forall|k: int| 0 <= k < self.slots@.len() && (#[trigger] self.slots@[k]).queued implies chain.contains(
                k as u32,
            ) || walk.contains(k as u32) by {
                assert(old(self).slots@[k].queued);
            }
        }
    }
}

/// The tasks that a pass over `walk` polls, in order, if none finishes while
/// another is polled.
pub open spec fn to_poll(walk: Seq<u32>, unfinished: Seq<bool>) -> Seq<u32> {
    walk.filter(|index: u32| unfinished[index as int])
}

/// Waking one task queues that task and no other.
pub proof fn law_a_wake_queues_one_task(set: TaskSetView, index: u32, other: u32)
    ensures
        set.woken(index).queued(other) <==> set.queued(other) || other == index,
{
    let after = set.woken(index);
    if !set.queued(index) {
        assert(after.chain[0] == index);
        if set.chain.contains(other) {
            assert(after.chain[set.chain.index_of(other) + 1] == other);
        }
        if after.chain.contains(other) && other != index {
            assert(set.chain[after.chain.index_of(other) - 1] == other);
        }
    }
}

/// However often a task is woken before it is polled, it is queued once.
pub proof fn law_waking_twice_is_waking_once(set: TaskSetView, index: u32)
    ensures
        set.woken(index).woken(index) == set.woken(index),
{
    law_a_wake_queues_one_task(set, index, index);
}

/// A pass reaches every unfinished task that was woken before it, exactly
/// once, whatever finished tasks were woken around it.
pub proof fn law_a_pass_reaches_every_woken_task(set: TaskSetView, index: u32)
    requires
        set.consistent(),
        set.walk.len() == 0,
        set.chain.contains(index),
        set.unfinished[index as int],
    ensures
        to_poll(set.begun().walk, set.unfinished).contains(index),
        to_poll(set.begun().walk, set.unfinished).no_duplicates(),
{
    let keep = |index: u32| set.unfinished[index as int];
    let walk = set.chain;
    assert(set.chain + set.walk =~= set.chain);
    let k = walk.index_of(index);
    assert(keep(walk[k]));
    walk.lemma_filter_contains(keep, k);
    assert(walk.filter(keep).contains(walk[k]));
    lemma_filter_distinct(walk, keep);
}

proof fn lemma_filter_distinct(walk: Seq<u32>, keep: spec_fn(u32) -> bool)
    requires
        walk.no_duplicates(),
    ensures
        walk.filter(keep).no_duplicates(),
    decreases walk.len(),
{
    reveal(Seq::filter);
    if walk.len() > 0 {
        let rest = walk.drop_last();
        lemma_filter_distinct(rest, keep);
        let kept = rest.filter(keep);
        assert(!kept.contains(walk.last())) by {
            if kept.contains(walk.last()) {
                rest.lemma_filter_contains_rev(keep, walk.last());
                assert(walk[rest.index_of(walk.last())] == walk.last());
            }
        }
    }
}

/// What is polled next is the first of what is left to poll, and the rest
/// follows: no finished task cuts the walk short.
pub proof fn law_the_walk_carries_on_past_finished_tasks(walk: Seq<u32>, unfinished: Seq<bool>)
    ensures
        finished_prefix(walk, unfinished) <= walk.len(),
        finished_prefix(walk, unfinished) == walk.len() ==> to_poll(walk, unfinished).len() == 0,
        finished_prefix(walk, unfinished) < walk.len() ==> to_poll(walk, unfinished)
            == seq![walk[finished_prefix(walk, unfinished) as int]] + to_poll(
            walk.skip(finished_prefix(walk, unfinished) as int + 1),
            unfinished,
        ),
    decreases walk.len(),
{
    let keep = |index: u32| unfinished[index as int];
    if walk.len() == 0 {
        reveal(Seq::filter);
    } else {
        lemma_filter_first(walk, keep);
        let rest = walk.drop_first();
        if unfinished[walk[0] as int] {
            assert(walk.skip(1) =~= rest);
        } else {
            law_the_walk_carries_on_past_finished_tasks(rest, unfinished);
            let k = finished_prefix(rest, unfinished);
            if k < rest.len() {
                assert(rest.skip(k as int + 1) =~= walk.skip(k as int + 2));
                assert(to_poll(walk, unfinished) =~= to_poll(rest, unfinished));
            }
        }
    }
}

proof fn lemma_filter_first(walk: Seq<u32>, keep: spec_fn(u32) -> bool)
    requires
        walk.len() > 0,
    ensures
        walk.filter(keep) == (if keep(walk[0]) {
            seq![walk[0]] + walk.drop_first().filter(keep)
        } else {
            walk.drop_first().filter(keep)
        }),
    decreases walk.len(),
{
    reveal(Seq::filter);
    if walk.len() == 1 {
        assert(walk.drop_last() =~= Seq::<u32>::empty());
        assert(walk.drop_first() =~= Seq::<u32>::empty());
        assert(walk.filter(keep) =~= (if keep(walk[0]) {
            seq![walk[0]] + walk.drop_first().filter(keep)
        } else {
            walk.drop_first().filter(keep)
        }));
    } else {
        let front = walk.drop_last();
        lemma_filter_first(front, keep);
        assert(front.drop_first() =~= walk.drop_first().drop_last());
        assert(walk.filter(keep) =~= (if keep(walk[0]) {
            seq![walk[0]] + walk.drop_first().filter(keep)
        } else {
            walk.drop_first().filter(keep)
        }));
    }
}

proof fn lemma_filter_same(
    walk: Seq<u32>,
    keep: spec_fn(u32) -> bool,
    other: spec_fn(u32) -> bool,
)
    requires
        forall|i: int| 0 <= i < walk.len() ==> keep(#[trigger] walk[i]) == other(walk[i]),
    ensures
        walk.filter(keep) == walk.filter(other),
    decreases walk.len(),
{
    reveal(Seq::filter);
    if walk.len() > 0 {
        assert forall|i: int| 0 <= i < walk.drop_last().len() implies keep(
            #[trigger] walk.drop_last()[i],
        ) == other(walk.drop_last()[i]) by {
            assert(walk.drop_last()[i] == walk[i]);
        }
        lemma_filter_same(walk.drop_last(), keep, other);
        assert(walk.last() == walk[walk.len() - 1]);
    }
}

/// Something that happens in the course of a pass.
pub enum PassEvent {
    /// A task is woken: by the one being polled, which may be itself, or by
    /// anyone else.
    Wake(u32),
    /// The pass moves on to its next task and polls it.
    Next,
    /// The task that was polled last has finished.
    Finish,
}

/// A pass over a set.
pub struct PassView {
    pub set: TaskSetView,
    /// The tasks that were polled, in order.
    pub polled: Seq<u32>,
    /// The task that was polled last, while the pass is at it.
    pub current: Option<u32>,
}

impl PassView {
    /// A pass over `set` in which nothing was polled yet.
    pub open spec fn begun(set: TaskSetView) -> Self {
        PassView { set: set.begun(), polled: Seq::empty(), current: None }
    }

    /// The event can happen: only tasks of the set are woken, and only a task
    /// that was polled, and has not finished, finishes.
    pub open spec fn allows(self, event: PassEvent) -> bool {
        match event {
            PassEvent::Wake(index) => index < self.set.unfinished.len(),
            PassEvent::Next => true,
            PassEvent::Finish => self.current is Some
                && self.set.unfinished[self.current->0 as int],
        }
    }

    /// What an event leaves.
    pub open spec fn after(self, event: PassEvent) -> Self {
        match event {
            PassEvent::Wake(index) => PassView { set: self.set.woken(index), ..self },
            PassEvent::Next => PassView {
                set: self.set.advanced(),
                polled: match self.set.next_task() {
                    Some(task) => self.polled.push(task),
                    None => self.polled,
                },
                current: self.set.next_task(),
            },
            PassEvent::Finish => PassView { set: self.set.finished(self.current->0), ..self },
        }
    }

    /// What these events leave, one after the other.
    pub open spec fn after_all(self, events: Seq<PassEvent>) -> Self
        decreases events.len(),
    {
        if events.len() == 0 {
            self
        } else {
            self.after_all(events.drop_last()).after(events.last())
        }
    }

    /// These events can happen, one after the other.
    pub open spec fn allows_all(self, events: Seq<PassEvent>) -> bool
        decreases events.len(),
    {
        events.len() > 0 ==> {
            &&& self.allows_all(events.drop_last())
            &&& self.after_all(events.drop_last()).allows(events.last())
        }
    }

    /// Nothing is left to poll.
    pub open spec fn is_over(self) -> bool {
        self.set.next_task() is None
    }

    /// Event `k` wakes the task, and the pass does not have it ahead of it:
    /// it has polled the task, or was not going to.
    pub open spec fn wakes_for_later(self, events: Seq<PassEvent>, k: int, index: u32) -> bool {
        &&& 0 <= k < events.len()
        &&& events[k] == PassEvent::Wake(index)
        &&& !self.after_all(events.take(k)).set.walk.contains(index)
    }
}

/// What a pass keeps while it goes on, from a set that had no other under way.
spec fn pass_kept(set: TaskSetView, pass: PassView) -> bool {
    &&& pass.set.consistent()
    &&& pass.set.unfinished.len() == set.unfinished.len()
    &&& pass.polled + to_poll(pass.set.walk, pass.set.unfinished) == to_poll(
        set.chain,
        set.unfinished,
    )
    &&& pass.current is Some ==> {
        &&& pass.polled.contains(pass.current->0)
        &&& !pass.set.walk.contains(pass.current->0)
        &&& pass.current->0 < set.unfinished.len()
    }
    &&& forall|i: int|
        #![trigger pass.set.unfinished[i]]
        0 <= i < set.unfinished.len() ==> {
            &&& pass.set.unfinished[i] ==> set.unfinished[i]
            &&& set.unfinished[i] && !pass.set.unfinished[i] ==> pass.polled.contains(i as u32)
        }
    &&& forall|i: int|
        #![trigger pass.polled[i]]
        0 <= i < pass.polled.len() ==> !pass.set.walk.contains(pass.polled[i])
}

proof fn lemma_woken_consistent(set: TaskSetView, index: u32)
    requires
        set.consistent(),
        index < set.unfinished.len(),
    ensures
        set.woken(index).consistent(),
{
    if !set.queued(index) {
        let after = set.woken(index);
        let both = set.chain + set.walk;
        assert(after.chain + after.walk =~= seq![index] + both);
        if both.contains(index) {
            let k = both.index_of(index);
            if k < set.chain.len() {
                assert(set.chain[k] == index);
            } else {
                assert(set.walk[k - set.chain.len()] == index);
            }
        }
        assert((seq![index] + both).no_duplicates());
        assert forall|i: int| 0 <= i < after.chain.len() implies #[trigger] after.chain[i]
            < after.unfinished.len() by {
            if i > 0 {
                assert(after.chain[i] == set.chain[i - 1]);
            }
        }
    }
}

proof fn lemma_advanced_consistent(set: TaskSetView)
    requires
        set.consistent(),
    ensures
        set.advanced().consistent(),
        set.next_task() is Some ==> {
            &&& set.next_task()->0 < set.unfinished.len()
            &&& set.unfinished[set.next_task()->0 as int]
            &&& set.walk.contains(set.next_task()->0)
            &&& !set.advanced().queued(set.next_task()->0)
        },
        forall|index: u32| #[trigger]
            set.advanced().walk.contains(index) ==> set.walk.contains(index),
{
    let after = set.advanced();
    let skipped = set.skipped() as int;
    let both = set.chain + set.walk;
    let fewer = set.chain + after.walk;
    lemma_stops_at_unfinished(set.walk, set.unfinished);
    if skipped < set.walk.len() {
        let task = set.walk[skipped];
        assert(both[set.chain.len() + skipped] == task);
        assert forall|i: int| 0 <= i < fewer.len() implies #[trigger] fewer[i] == both[if i
            < set.chain.len() {
            i
        } else {
            i + skipped + 1
        }] by {}
        assert(fewer.no_duplicates());
        assert forall|i: int| 0 <= i < after.walk.len() implies #[trigger] after.walk[i]
            < after.unfinished.len() by {
            assert(after.walk[i] == set.walk[i + skipped + 1]);
        }
        if set.chain.contains(task) {
            assert(both[set.chain.index_of(task)] == task);
        }
        if after.walk.contains(task) {
            assert(both[set.chain.len() + skipped + 1 + after.walk.index_of(task)] == task);
        }
        assert forall|index: u32| #[trigger] after.walk.contains(index) implies set.walk.contains(
            index,
        ) by {
            assert(set.walk[after.walk.index_of(index) + skipped + 1] == index);
        }
    } else {
        assert forall|i: int| 0 <= i < fewer.len() implies #[trigger] fewer[i] == both[i] by {}
        assert(fewer.no_duplicates());
    }
}

/// Behind the finished tasks at the front comes an unfinished one.
proof fn lemma_stops_at_unfinished(walk: Seq<u32>, unfinished: Seq<bool>)
    ensures
        finished_prefix(walk, unfinished) <= walk.len(),
        finished_prefix(walk, unfinished) < walk.len() ==> unfinished[walk[finished_prefix(
            walk,
            unfinished,
        ) as int] as int],
    decreases walk.len(),
{
    if walk.len() > 0 && !unfinished[walk[0] as int] {
        lemma_stops_at_unfinished(walk.drop_first(), unfinished);
    }
}

proof fn lemma_pass_kept(set: TaskSetView, events: Seq<PassEvent>)
    requires
        set.consistent(),
        set.walk.len() == 0,
        PassView::begun(set).allows_all(events),
    ensures
        pass_kept(set, PassView::begun(set).after_all(events)),
    decreases events.len(),
{
    let start = PassView::begun(set);
    if events.len() == 0 {
        assert(start.set.chain + start.set.walk =~= set.chain + set.walk);
        assert(start.polled + to_poll(start.set.walk, start.set.unfinished) =~= to_poll(
            set.chain,
            set.unfinished,
        ));
    } else {
        lemma_pass_kept(set, events.drop_last());
        let before = start.after_all(events.drop_last());
        let after = before.after(events.last());
        match events.last() {
            PassEvent::Wake(index) => {
                lemma_woken_consistent(before.set, index);
            },
            PassEvent::Next => {
                lemma_advanced_consistent(before.set);
                law_the_walk_carries_on_past_finished_tasks(before.set.walk, before.set.unfinished);
                match before.set.next_task() {
                    Some(task) => {
                        assert(after.polled + to_poll(after.set.walk, after.set.unfinished)
                            =~= before.polled + to_poll(before.set.walk, before.set.unfinished));
                        assert(after.polled[before.polled.len() as int] == task);
                        assert forall|i: int| 0 <= i < set.unfinished.len() && set.unfinished[i]
                            && !(#[trigger] after.set.unfinished[i]) implies after.polled.contains(
                            i as u32,
                        ) by {
                            assert(!before.set.unfinished[i]);
                            let k = before.polled.index_of(i as u32);
                            assert(after.polled[k] == i as u32);
                        }
                        assert forall|i: int| 0 <= i < after.polled.len() implies !after.set.walk.contains(
                            #[trigger] after.polled[i],
                        ) by {
                            if i < before.polled.len() {
                                assert(after.polled[i] == before.polled[i]);
                            }
                        }
                    },
                    None => {
                        assert(to_poll(after.set.walk, after.set.unfinished) =~= to_poll(
                            before.set.walk,
                            before.set.unfinished,
                        )) by {
                            reveal(Seq::filter);
                        }
                    },
                }
            },
            PassEvent::Finish => {
                let task = before.current->0;
                let walk = before.set.walk;
                let keep = |index: u32| before.set.unfinished[index as int];
                let other = |index: u32| after.set.unfinished[index as int];
                assert forall|i: int| 0 <= i < walk.len() implies keep(#[trigger] walk[i]) == other(
                    walk[i],
                ) by {
                    assert(walk.contains(walk[i]));
                }
                lemma_filter_same(walk, keep, other);
            },
        }
    }
}

/// A pass polls each unfinished task that was woken before it exactly once,
/// and no other, whatever its tasks do to each other: they may wake themselves
/// and one another, and finish. Only a task that was polled finishes.
pub proof fn law_a_pass_polls_what_was_woken_before_it(
    set: TaskSetView,
    events: Seq<PassEvent>,
)
    requires
        set.consistent(),
        set.walk.len() == 0,
        PassView::begun(set).allows_all(events),
        PassView::begun(set).after_all(events).is_over(),
    ensures
        ({
            let end = PassView::begun(set).after_all(events);
            &&& end.polled == to_poll(set.chain, set.unfinished)
            &&& end.polled.no_duplicates()
            &&& forall|index: u32|
                index < set.unfinished.len() ==> (#[trigger] end.polled.contains(index)
                    <==> set.chain.contains(index) && set.unfinished[index as int])
            &&& end.set.unfinished.len() == set.unfinished.len()
            &&& forall|index: u32|
                #![trigger end.set.unfinished[index as int]]
                index < set.unfinished.len() ==> {
                    &&& end.set.unfinished[index as int] ==> set.unfinished[index as int]
                    &&& set.unfinished[index as int] && !end.set.unfinished[index as int]
                        ==> end.polled.contains(index)
                }
        }),
{
    let end = PassView::begun(set).after_all(events);
    lemma_pass_kept(set, events);
    law_the_walk_carries_on_past_finished_tasks(end.set.walk, end.set.unfinished);
    assert(end.polled =~= to_poll(set.chain, set.unfinished));
    let keep = |index: u32| set.unfinished[index as int];
    assert(set.chain + set.walk =~= set.chain);
    lemma_filter_distinct(set.chain, keep);
    assert forall|index: u32| index < set.unfinished.len() implies (#[trigger] end.polled.contains(
        index,
    ) <==> set.chain.contains(index) && set.unfinished[index as int]) by {
        if end.polled.contains(index) {
            set.chain.lemma_filter_contains_rev(keep, index);
            let k = end.polled.index_of(index);
            set.chain.lemma_filter_pred(keep, k);
            assert(keep(end.polled[k]));
        }
        if set.chain.contains(index) && set.unfinished[index as int] {
            let k = set.chain.index_of(index);
            assert(keep(set.chain[k]));
            set.chain.lemma_filter_contains(keep, k);
        }
    }
}

/// What a pass leaves for the next: exactly the tasks that were woken in the
/// course of it when it did not have them ahead of it. A task that wakes itself
/// is among them, and so is one that another woke after it was polled.
pub proof fn law_a_pass_leaves_what_was_woken_during_it(
    set: TaskSetView,
    events: Seq<PassEvent>,
    index: u32,
)
    requires
        set.consistent(),
        set.walk.len() == 0,
        PassView::begun(set).allows_all(events),
    ensures
        ({
            let start = PassView::begun(set);
            &&& start.after_all(events).set.chain.contains(index) <==> exists|k: int|
                start.wakes_for_later(events, k, index)
            &&& start.after_all(events).polled.contains(index) ==> !start.after_all(
                events,
            ).set.walk.contains(index)
        }),
    decreases events.len(),
{
    let start = PassView::begun(set);
    lemma_pass_kept(set, events);
    let end = start.after_all(events);
    if end.polled.contains(index) {
        assert(end.polled[end.polled.index_of(index)] == index);
    }
    if events.len() > 0 {
        let fewer = events.drop_last();
        let last = events.len() - 1;
        law_a_pass_leaves_what_was_woken_during_it(set, fewer, index);
        let before = start.after_all(fewer);
        assert(events.take(last) =~= fewer);
        assert forall|k: int| 0 <= k < last implies #[trigger] start.wakes_for_later(
            events,
            k,
            index,
        ) == start.wakes_for_later(fewer, k, index) by {
            assert(events.take(k) =~= fewer.take(k));
        }
        if before.set.chain.contains(index) {
            let k = choose|k: int| start.wakes_for_later(fewer, k, index);
            assert(start.wakes_for_later(events, k, index));
        }
        match events.last() {
            PassEvent::Wake(other) => {
                if before.set.queued(other) {
                    assert(end.set.chain == before.set.chain);
                } else {
                    let chain = end.set.chain;
                    assert(chain[0] == other);
                    if before.set.chain.contains(index) {
                        assert(chain[before.set.chain.index_of(index) + 1] == index);
                    }
                    if chain.contains(index) && index != other {
                        assert(before.set.chain[chain.index_of(index) - 1] == index);
                    }
                }
                if other == index && !before.set.walk.contains(index) {
                    assert(start.wakes_for_later(events, last, index));
                }
            },
            _ => {
                assert(end.set.chain == before.set.chain);
            },
        }
        if exists|k: int| start.wakes_for_later(events, k, index) {
            let k = choose|k: int| start.wakes_for_later(events, k, index);
            if k < last {
                assert(start.wakes_for_later(fewer, k, index));
            } else {
                assert(events.last() == PassEvent::Wake(index));
            }
        }
    }
}

/// What is done to a set between two passes.
pub enum SetCall {
    /// A task is added.
    Push,
    /// A task is woken.
    Wake(u32),
}

impl TaskSetView {
    /// What a call leaves.
    pub open spec fn after_call(self, call: SetCall) -> Self {
        match call {
            SetCall::Push => self.pushed(),
            SetCall::Wake(index) => self.woken(index),
        }
    }

    /// What these calls leave, one after the other.
    pub open spec fn after_calls(self, calls: Seq<SetCall>) -> Self
        decreases calls.len(),
    {
        if calls.len() == 0 {
            self
        } else {
            self.after_calls(calls.drop_last()).after_call(calls.last())
        }
    }

    /// These calls can be made, one after the other: the set has room, and only
    /// tasks of the set are woken.
    pub open spec fn allows_calls(self, calls: Seq<SetCall>) -> bool
        decreases calls.len(),
    {
        calls.len() > 0 ==> {
            let before = self.after_calls(calls.drop_last());
            &&& self.allows_calls(calls.drop_last())
            &&& match calls.last() {
                SetCall::Push => before.unfinished.len() < END,
                SetCall::Wake(index) => index < before.unfinished.len(),
            }
        }
    }
}

/// Between two passes exactly the tasks that are added or woken are queued, on
/// top of those that were. What was finished stays so, and a new task is not.
pub proof fn law_what_is_added_or_woken_is_queued(
    set: TaskSetView,
    calls: Seq<SetCall>,
    index: u32,
)
    requires
        set.consistent(),
        set.walk.len() == 0,
        set.unfinished.len() <= END,
        set.allows_calls(calls),
    ensures
        ({
            let after = set.after_calls(calls);
            &&& after.consistent()
            &&& after.walk.len() == 0
            &&& set.unfinished.len() <= after.unfinished.len() <= END
            &&& after.chain.contains(index) <==> {
                ||| set.chain.contains(index)
                ||| set.unfinished.len() <= index < after.unfinished.len()
                ||| calls.contains(SetCall::Wake(index))
            }
            &&& forall|i: int|
                #![trigger after.unfinished[i]]
                0 <= i < after.unfinished.len() ==> after.unfinished[i] == (i
                    >= set.unfinished.len() || set.unfinished[i])
        }),
    decreases calls.len(),
{
    if calls.len() > 0 {
        let fewer = calls.drop_last();
        law_what_is_added_or_woken_is_queued(set, fewer, index);
        let before = set.after_calls(fewer);
        let after = set.after_calls(calls);
        let last = calls.last();
        assert(calls[calls.len() - 1] == last);
        if fewer.contains(SetCall::Wake(index)) {
            assert(calls[fewer.index_of(SetCall::Wake(index))] == SetCall::Wake(index));
        }
        if calls.contains(SetCall::Wake(index)) && last != SetCall::Wake(index) {
            let k = calls.index_of(SetCall::Wake(index));
            assert(fewer[k] == SetCall::Wake(index));
        }
        match last {
            SetCall::Push => {
                let fresh = before.unfinished.len() as u32;
                assert(!before.queued(fresh)) by {
                    if before.chain.contains(fresh) {
                        assert(before.chain[before.chain.index_of(fresh)] == fresh);
                    }
                }
                let grown = TaskSetView { unfinished: before.unfinished.push(true), ..before };
                assert(after == grown.woken(fresh));
                lemma_woken_consistent(grown, fresh);
                law_a_wake_queues_one_task(grown, fresh, index);
            },
            SetCall::Wake(other) => {
                lemma_woken_consistent(before, other);
                law_a_wake_queues_one_task(before, other, index);
            },
        }
    }
}

/// A pass polls exactly the unfinished tasks that were added or woken since the
/// pass before it began, apart from those that were woken while that pass still
/// had them ahead of it: that pass polled them, if they were unfinished, after
/// the wake.
pub proof fn law_a_pass_polls_what_was_woken_since_the_last(
    set: TaskSetView,
    events: Seq<PassEvent>,
    calls: Seq<SetCall>,
    later: Seq<PassEvent>,
    index: u32,
)
    requires
        set.consistent(),
        set.walk.len() == 0,
        set.unfinished.len() <= END,
        PassView::begun(set).allows_all(events),
        PassView::begun(set).after_all(events).is_over(),
        ({
            let between = PassView::begun(set).after_all(events).set.advanced();
            let next = between.after_calls(calls);
            &&& between.allows_calls(calls)
            &&& PassView::begun(next).allows_all(later)
            &&& PassView::begun(next).after_all(later).is_over()
            &&& index < next.unfinished.len()
        }),
    ensures
        ({
            let between = PassView::begun(set).after_all(events).set.advanced();
            let next = between.after_calls(calls);
            let end = PassView::begun(next).after_all(later);
            &&& end.polled.no_duplicates()
            &&& end.polled.contains(index) <==> {
                &&& next.unfinished[index as int]
                &&& {
                    ||| exists|k: int| PassView::begun(set).wakes_for_later(events, k, index)
                    ||| between.unfinished.len() <= index
                    ||| calls.contains(SetCall::Wake(index))
                }
            }
        }),
{
    let done = PassView::begun(set).after_all(events);
    let between = done.set.advanced();
    lemma_pass_kept(set, events);
    lemma_advanced_consistent(done.set);
    law_a_pass_leaves_what_was_woken_during_it(set, events, index);
    law_what_is_added_or_woken_is_queued(between, calls, index);
    law_a_pass_polls_what_was_woken_before_it(between.after_calls(calls), later);
}

/// A set is done exactly when no unfinished task is left, which is so of a set
/// that never had one.
pub proof fn law_a_set_is_done_when_no_task_is_left(unfinished: Seq<bool>)
    ensures
        count(unfinished) == 0 <==> forall|i: int|
            0 <= i < unfinished.len() ==> !#[trigger] unfinished[i],
    decreases unfinished.len(),
{
    if unfinished.len() > 0 {
        let rest = unfinished.drop_last();
        law_a_set_is_done_when_no_task_is_left(rest);
        if count(unfinished) == 0 {
            assert forall|i: int| 0 <= i < unfinished.len() implies !#[trigger] unfinished[i] by {
                if i < rest.len() {
                    assert(rest[i] == unfinished[i]);
                }
            }
        }
        if forall|i: int| 0 <= i < unfinished.len() ==> !#[trigger] unfinished[i] {
            assert forall|i: int| 0 <= i < rest.len() implies !#[trigger] rest[i] by {
                assert(rest[i] == unfinished[i]);
            }
            assert(!unfinished[unfinished.len() - 1]);
        }
    }
}

/// A task that is woken while it is being polled is polled again in the next
/// pass, not in this one.
pub proof fn law_a_wake_during_a_pass_waits_for_the_next(set: TaskSetView, index: u32)
    requires
        !set.queued(index),
    ensures
        set.woken(index).walk == set.walk,
        set.woken(index).chain.contains(index),
{
    assert(set.woken(index).chain[0] == index);
}

/// The loop of a thread that waits for readiness and polls one future itself.
pub struct LocalLoop {
    /// The future has been woken since it was last polled.
    ready: bool,
    /// Which thread is inside the wait; zero means nobody.
    waiting: u64,
}

/// What the loop does next.
#[derive(Clone, Copy, Debug, PartialEq, Eq, Structural)]
pub enum LoopStep {
    /// Poll the future.
    Poll,
    /// Wait for the kernel.
    Wait,
}

/// What came of the last step, short of the future's being ready.
#[derive(Clone, Copy, Debug, PartialEq, Eq, Structural)]
pub enum LoopEvent {
    /// Nothing has been done yet.
    Start,
    /// A poll of a woken future came back pending.
    Pending,
    /// The wait returned.
    Waited,
    /// The poller failed.
    WaitFailed,
    /// The poll after a failure came back pending.
    PendingAfterFailure,
}

impl LocalLoop {
    /// The future has been woken since it was last polled.
    pub closed spec fn is_ready(self) -> bool {
        self.ready
    }

    /// Which thread is inside the wait; zero means nobody.
    pub closed spec fn waiter(self) -> u64 {
        self.waiting
    }

    /// Starts ready, so the first pass polls rather than waiting for an event
    /// that may already have happened.
    pub fn new() -> (state: Self)
        ensures
            state.is_ready(),
            state.waiter() == 0,
    {
        LocalLoop { ready: true, waiting: 0 }
    }

    /// Wake the future, from the thread with this key. Whether the wait has to
    /// be interrupted comes back: a wake raised by the waiting thread itself
    /// comes from dispatching, when the poller has returned and the loop is
    /// about to poll.
    pub fn wake(&mut self, thread: u64) -> (interrupt: bool)
        ensures
            final(self).is_ready(),
            final(self).waiter() == old(self).waiter(),
            interrupt == (old(self).waiter() != thread),
    {
        self.ready = true;
        self.waiting != thread
    }

    /// Decide what the thread with this key does next. The wait is claimed
    /// before it is entered and given up when it is over. After a failed wait
    /// the future gets one more chance to finish on what it already has.
    pub fn step(&mut self, event: LoopEvent, key: u64) -> (step: LoopStep)
        ensures
            step == (match event {
                LoopEvent::WaitFailed => LoopStep::Poll,
                LoopEvent::Pending => LoopStep::Wait,
                _ => if old(self).is_ready() {
                    LoopStep::Poll
                } else {
                    LoopStep::Wait
                },
            }),
            final(self).is_ready() == (old(self).is_ready() && (event is WaitFailed
                || event is Pending)),
            final(self).waiter() == (if step is Wait {
                key
            } else {
                0
            }),
    {
        self.waiting = 0;
        let step = match event {
            LoopEvent::WaitFailed => LoopStep::Poll,
            LoopEvent::Pending => LoopStep::Wait,
            _ => {
                if self.ready {
                    self.ready = false;
                    LoopStep::Poll
                } else {
                    LoopStep::Wait
                }
            },
        };
        if step == LoopStep::Wait {
            self.waiting = key;
        }
        step
    }
}

/// The count of a set goes up by one with each task that is added and down by
/// one with each that finishes; waking and polling leave it alone.
pub proof fn law_a_set_counts_its_unfinished_tasks(set: TaskSetView, index: u32)
    requires
        index < set.unfinished.len(),
    ensures
        count(set.pushed().unfinished) == count(set.unfinished) + 1,
        set.unfinished[index as int] ==> count(set.finished(index).unfinished) == count(
            set.unfinished,
        ) - 1,
        count(set.woken(index).unfinished) == count(set.unfinished),
        count(set.begun().unfinished) == count(set.unfinished),
        count(set.advanced().unfinished) == count(set.unfinished),
        count(Seq::empty()) == 0,
{
    assert(set.pushed().unfinished.drop_last() =~= set.unfinished);
    if set.unfinished[index as int] {
        lemma_count_update(set.unfinished, index as int);
    }
}

/// Finishing a task finishes that one and no other, and queues nothing.
pub proof fn law_finishing_a_task_finishes_no_other(set: TaskSetView, index: u32, other: u32)
    requires
        index < set.unfinished.len(),
        other < set.unfinished.len(),
    ensures
        !set.finished(index).unfinished[index as int],
        set.finished(index).unfinished.len() == set.unfinished.len(),
        other != index ==> set.finished(index).unfinished[other as int]
            == set.unfinished[other as int],
        set.finished(index).chain == set.chain,
        set.finished(index).walk == set.walk,
{
}

/// A task that is added is new, unfinished and queued in front of all that were
/// woken before it; so is one that is woken and was not queued. Everything else
/// is as it was.
pub proof fn law_what_is_woken_last_is_polled_first(set: TaskSetView, index: u32)
    requires
        set.unfinished.len() < END,
    ensures
        set.pushed().chain == seq![set.unfinished.len() as u32] + set.chain,
        set.pushed().walk == set.walk,
        set.pushed().unfinished == set.unfinished.push(true),
        !set.chain.contains(index) && !set.walk.contains(index) ==> set.woken(index).chain
            == seq![index] + set.chain,
        set.chain.contains(index) || set.walk.contains(index) ==> set.woken(index) == set,
        set.woken(index).walk == set.walk,
        set.woken(index).unfinished == set.unfinished,
{
}

} // verus!
