//! The queue of parked tasks that every primitive of this module waits in.
//!
//! Slot indices belong to the waiting futures rather than to their wakers. A
//! granted slot stays live until its future acknowledges or cancels it, so a
//! waiter leaves the middle of the queue without a scan.
use vstd::prelude::*;

verus! {

/// How a waiter stands with the queue.
#[derive(Clone, Copy, Debug, PartialEq, Eq, Structural)]
pub enum WakeKind {
    /// Still in line.
    Queued,
    /// Taken out of the line by a grant to a single waiter.
    One,
    /// Taken out of the line by a grant to every waiter.
    All,
}

struct Waiter<W> {
    previous: Option<usize>,
    next: Option<usize>,
    kind: WakeKind,
    waker: Option<W>,
}

enum WaiterSlot<W> {
    Live(Waiter<W>),
    Free(Option<usize>),
}

/// Waiters in the order they arrived, held in reusable slots.
pub struct WaitQueue<W> {
    slots: Vec<WaiterSlot<W>>,
    free: Option<usize>,
    head: Option<usize>,
    tail: Option<usize>,
    order: Ghost<Seq<usize>>,
    vacant: Ghost<Seq<usize>>,
}

/// A waiter apart from its place in line.
pub struct Entry<W> {
    /// How the waiter stands with the queue.
    pub kind: WakeKind,
    /// The waker to call on a grant, once one has been supplied.
    pub waker: Option<W>,
}

/// A wait queue as its users see it.
#[verifier::ext_equal]
pub struct QueueView<W> {
    /// The slots still in line, first in first out.
    pub order: Seq<usize>,
    /// Every slot that belongs to a future.
    pub live: Map<usize, Entry<W>>,
    /// The slots that belong to none, the next to be handed out first.
    pub vacant: Seq<usize>,
    /// How many slots there are, live and vacant.
    pub slots: nat,
}

/// The wakers of the waiters in `order`, leaving out those that have none.
pub open spec fn wakers_of<W>(order: Seq<usize>, live: Map<usize, Entry<W>>) -> Seq<W>
    decreases order.len(),
{
    if order.len() == 0 {
        Seq::empty()
    } else {
        let rest = wakers_of(order.drop_last(), live);
        match live[order.last()].waker {
            Some(waker) => rest.push(waker),
            None => rest,
        }
    }
}

impl<W> QueueView<W> {
    /// A queue nobody ever waited in.
    pub open spec fn empty() -> Self {
        QueueView { order: Seq::empty(), live: Map::empty(), vacant: Seq::empty(), slots: 0 }
    }

    /// The slot that the next new waiter gets.
    pub open spec fn fresh(self) -> usize {
        if self.vacant.len() > 0 {
            self.vacant[0]
        } else {
            self.slots as usize
        }
    }

    /// A new waiter joins the line, without a waker.
    pub open spec fn admitted(self) -> Self {
        QueueView {
            order: self.order.push(self.fresh()),
            live: self.live.insert(
                self.fresh(),
                Entry { kind: WakeKind::Queued, waker: None },
            ),
            vacant: if self.vacant.len() > 0 { self.vacant.drop_first() } else { self.vacant },
            slots: if self.vacant.len() > 0 { self.slots } else { self.slots + 1 },
        }
    }

    /// A granted waiter goes back to the end of the line.
    pub open spec fn requeued(self, id: usize) -> Self {
        QueueView {
            order: self.order.push(id),
            live: self.live.insert(
                id,
                Entry { kind: WakeKind::Queued, waker: self.live[id].waker },
            ),
            ..self
        }
    }

    /// The waiter holds `waker`; without one it keeps what it had.
    pub open spec fn holding(self, id: usize, waker: Option<W>) -> Self {
        match waker {
            Some(_) => QueueView {
                live: self.live.insert(id, Entry { kind: self.live[id].kind, waker }),
                ..self
            },
            None => self,
        }
    }

    /// A slot can be found for a registration with this token: one that it has
    /// already, a vacant one, or one more than there are.
    pub open spec fn has_room(self, token: Option<usize>) -> bool {
        token is Some || self.vacant.len() > 0 || self.slots < usize::MAX
    }

    /// The slot a registration with this token ends up with.
    pub open spec fn slot_for(self, token: Option<usize>) -> usize {
        match token {
            Some(id) => id,
            None => self.fresh(),
        }
    }

    /// The waiter of `token` is in line.
    pub open spec fn lined_up(self, token: Option<usize>) -> Self {
        match token {
            Some(id) => if self.live[id].kind is Queued {
                self
            } else {
                self.requeued(id)
            },
            None => self.admitted(),
        }
    }

    /// The waiter of `token` is in line and holds `waker`.
    pub open spec fn registered(self, token: Option<usize>, waker: Option<W>) -> Self {
        self.lined_up(token).holding(self.slot_for(token), waker)
    }

    /// The waiter has left: its slot is the first to be handed out again.
    pub open spec fn removed(self, id: usize) -> Self {
        QueueView {
            order: self.order.remove_value(id),
            live: self.live.remove(id),
            vacant: seq![id] + self.vacant,
            slots: self.slots,
        }
    }

    /// The first in line is granted; nothing changes where nobody is.
    pub open spec fn granted_one(self) -> Self {
        if self.order.len() == 0 {
            self
        } else {
            QueueView {
                order: self.order.drop_first(),
                live: self.live.insert(
                    self.order[0],
                    Entry { kind: WakeKind::One, waker: None },
                ),
                ..self
            }
        }
    }

    /// Everyone in line is granted.
    pub open spec fn granted_all(self) -> Self {
        QueueView {
            order: Seq::empty(),
            live: Map::new(
                |id: usize| self.live.contains_key(id),
                |id: usize|
                    if self.live[id].kind is Queued {
                        Entry { kind: WakeKind::All, waker: None }
                    } else {
                        self.live[id]
                    },
            ),
            ..self
        }
    }

    /// The waker that a grant to one waiter hands back.
    pub open spec fn first_waker(self) -> Option<W> {
        if self.order.len() == 0 {
            None
        } else {
            self.live[self.order[0]].waker
        }
    }

    /// What holds of every wait queue: nobody stands in line twice, those in
    /// line are the queued ones, and each slot is either live or vacant.
    pub open spec fn consistent(self) -> bool {
        &&& self.order.no_duplicates()
        &&& self.vacant.no_duplicates()
        &&& forall|id: usize|
            #![trigger self.order.contains(id)]
            self.order.contains(id) <==> self.live.contains_key(id) && self.live[id].kind is Queued
        &&& forall|id: usize|
            #![trigger self.live.contains_key(id)]
            #![trigger self.vacant.contains(id)]
            id < self.slots <==> (self.live.contains_key(id) || self.vacant.contains(id))
        &&& forall|id: usize|
            #![trigger self.vacant.contains(id)]
            self.vacant.contains(id) ==> !self.live.contains_key(id)
        &&& self.slots <= usize::MAX
    }
}

impl<W> QueueView<W> {
    /// A new waiter leaves a consistent queue, and gets a slot that nobody has.
    pub proof fn lemma_admitted(self)
        requires
            self.consistent(),
            self.has_room(None),
        ensures
            self.admitted().consistent(),
            !self.live.contains_key(self.fresh()),
            !self.order.contains(self.fresh()),
    {
        let id = self.fresh();
        let after = self.admitted();
        if self.vacant.len() > 0 {
            assert(self.vacant.contains(self.vacant[0]));
        }
        assert(!self.order.contains(id));
        assert(after.order[self.order.len() as int] == id);
        assert forall|other: usize| #[trigger] after.order.contains(other) <==> (self.order.contains(
            other,
        ) || other == id) by {
            if self.order.contains(other) {
                assert(after.order[self.order.index_of(other)] == other);
            }
            if after.order.contains(other) && other != id {
                assert(self.order[after.order.index_of(other)] == other);
            }
        }
        assert forall|other: usize| #[trigger] after.vacant.contains(other) <==> (
        self.vacant.contains(other) && other != id) by {
            if self.vacant.contains(other) && other != id {
                assert(after.vacant[self.vacant.index_of(other) - 1] == other);
            }
            if after.vacant.contains(other) {
                assert(self.vacant[after.vacant.index_of(other) + 1] == other);
            }
        }
    }

    /// A waiter that changes its waker leaves a consistent queue.
    pub proof fn lemma_holding(self, id: usize, waker: Option<W>)
        requires
            self.consistent(),
            self.live.contains_key(id),
        ensures
            self.holding(id, waker).consistent(),
    {
    }

    /// Granting everyone leaves a consistent queue.
    pub proof fn lemma_granted_all(self)
        requires
            self.consistent(),
        ensures
            self.granted_all().consistent(),
    {
    }
}

impl<W> WaitQueue<W> {
    spec fn is_live(self, id: int) -> bool {
        0 <= id < self.slots@.len() && self.slots@[id] is Live
    }

    spec fn at(self, id: int) -> Waiter<W> {
        self.slots@[id]->Live_0
    }

    /// The waiter at place `i` of the line knows its neighbours.
    spec fn linked(self, order: Seq<usize>, i: int) -> bool {
        let waiter = self.at(order[i] as int);
        &&& self.is_live(order[i] as int)
        &&& waiter.kind is Queued
        &&& waiter.previous == (if i == 0 { None } else { Some(order[i - 1]) })
        &&& waiter.next == (if i + 1 == order.len() { None } else { Some(order[i + 1]) })
    }

    /// The line is threaded through its waiters in both directions.
    spec fn line_ok(self) -> bool {
        let order = self.order@;
        &&& order.no_duplicates()
        &&& self.head == (if order.len() == 0 { None } else { Some(order[0]) })
        &&& self.tail == (if order.len() == 0 { None } else { Some(order.last()) })
        &&& forall|i: int| 0 <= i < order.len() ==> #[trigger] self.linked(order, i)
    }

    /// The vacant slot at place `i` of the chain leads to the next.
    spec fn chained(self, vacant: Seq<usize>, i: int) -> bool {
        &&& vacant[i] < self.slots@.len()
        &&& self.slots@[vacant[i] as int] == WaiterSlot::<W>::Free(
            if i + 1 == vacant.len() {
                None
            } else {
                Some(vacant[i + 1])
            },
        )
    }

    /// The vacant slots are chained from `free`.
    spec fn chain_ok(self) -> bool {
        let vacant = self.vacant@;
        &&& vacant.no_duplicates()
        &&& self.free == (if vacant.len() == 0 { None } else { Some(vacant[0]) })
        &&& forall|i: int| 0 <= i < vacant.len() ==> #[trigger] self.chained(vacant, i)
    }

    /// Every slot but `spare` is in the line, in the chain, or granted.
    spec fn covered_but(self, spare: int) -> bool {
        &&& self.slots@.len() <= usize::MAX
        &&& self.line_ok()
        &&& self.chain_ok()
        &&& forall|id: int|
            #![trigger self.slots@[id]]
            0 <= id < self.slots@.len() && id != spare ==> match self.slots@[id] {
                WaiterSlot::Live(waiter) => waiter.kind is Queued ==> self.order@.contains(
                    id as usize,
                ),
                WaiterSlot::Free(_) => self.vacant@.contains(id as usize),
            }
    }

    /// Well-formedness: every slot is in the line, in the chain, or granted.
    pub closed spec fn wf(self) -> bool {
        self.covered_but(-1)
    }
}

impl<W> View for WaitQueue<W> {
    type V = QueueView<W>;

    closed spec fn view(&self) -> QueueView<W> {
        QueueView {
            order: self.order@,
            live: Map::new(
                |id: usize| self.is_live(id as int),
                |id: usize|
                    Entry { kind: self.at(id as int).kind, waker: self.at(id as int).waker },
            ),
            vacant: self.vacant@,
            slots: self.slots@.len(),
        }
    }
}

impl<W> WaitQueue<W> {
    /// A queue with nobody in it, and no slots.
    pub fn new() -> (queue: Self)
        ensures
            queue.wf(),
            queue@ == QueueView::<W>::empty(),
    {
        let queue = WaitQueue {
            slots: Vec::new(),
            free: None,
            head: None,
            tail: None,
            order: Ghost(Seq::empty()),
            vacant: Ghost(Seq::empty()),
        };
        assert(queue@ =~= QueueView::<W>::empty());
        queue
    }

    fn get(&self, id: usize) -> (waiter: &Waiter<W>)
        requires
            self.is_live(id as int),
        ensures
            *waiter == self.at(id as int),
    {
        match &self.slots[id] {
            WaiterSlot::Live(waiter) => waiter,
            WaiterSlot::Free(_) => vstd::pervasive::unreached(),
        }
    }

    fn get_mut(&mut self, id: usize) -> (waiter: &mut Waiter<W>)
        requires
            old(self).is_live(id as int),
        ensures
            *waiter == old(self).at(id as int),
            final(self).slots@ == old(self).slots@.update(
                id as int,
                WaiterSlot::Live(*final(waiter)),
            ),
            final(self).free == old(self).free,
            final(self).head == old(self).head,
            final(self).tail == old(self).tail,
            final(self).order == old(self).order,
            final(self).vacant == old(self).vacant,
    {
        match &mut self.slots[id] {
            WaiterSlot::Live(waiter) => waiter,
            WaiterSlot::Free(_) => vstd::pervasive::unreached(),
        }
    }

    /// What lies in the chain of vacant slots is not touched by a change to a
    /// live one.
    proof fn lemma_chain_kept(self, before: Self)
        requires
            before.chain_ok(),
            self.vacant == before.vacant,
            self.free == before.free,
            self.slots@.len() == before.slots@.len(),
            forall|id: int|
                0 <= id < before.slots@.len() && before.slots@[id] is Free ==> self.slots@[id]
                    == #[trigger] before.slots@[id],
        ensures
            self.chain_ok(),
    {
        let vacant = self.vacant@;
        assert forall|i: int| 0 <= i < vacant.len() implies #[trigger] self.chained(vacant, i) by {
            assert(before.chained(vacant, i));
        }
    }

    fn enqueue(&mut self, id: usize)
        requires
            old(self).covered_but(id as int),
            old(self).is_live(id as int),
            !old(self).order@.contains(id),
        ensures
            final(self).wf(),
            final(self)@ == (QueueView {
                order: old(self)@.order.push(id),
                live: old(self)@.live.insert(
                    id,
                    Entry { kind: WakeKind::Queued, waker: old(self)@.live[id].waker },
                ),
                ..old(self)@
            }),
    {
        let ghost order = self.order@;
        proof {
            if order.len() > 0 {
                assert(self.linked(order, order.len() - 1));
            }
        }
        let tail = self.tail;
        let waiter = self.get_mut(id);
        waiter.previous = tail;
        waiter.next = None;
        waiter.kind = WakeKind::Queued;
        if let Some(tail) = tail {
            self.get_mut(tail).next = Some(id);
        } else {
            self.head = Some(id);
        }
        self.tail = Some(id);
        self.order = Ghost(order.push(id));
        proof {
            let longer = self.order@;
            assert forall|i: int| 0 <= i < longer.len() implies #[trigger] self.linked(longer, i) by {
                if i < order.len() {
                    assert(old(self).linked(order, i));
                    assert(order[i] != id);
                    assert(order.contains(order[i]));
                }
            }
            self.lemma_chain_kept(*old(self));
            assert forall|j: int| 0 <= j < self.slots@.len() implies match #[trigger] self.slots@[j] {
                WaiterSlot::Live(waiter) => waiter.kind is Queued ==> longer.contains(j as usize),
                WaiterSlot::Free(_) => self.vacant@.contains(j as usize),
            } by {
                if j == id {
                    assert(longer[order.len() as int] == id);
                } else {
                    assert(old(self).slots@[j] is Live == self.slots@[j] is Live);
                    if order.contains(j as usize) {
                        assert(longer[order.index_of(j as usize)] == j as usize);
                    }
                }
            }
            assert(self@.live =~= old(self)@.live.insert(
                id,
                Entry { kind: WakeKind::Queued, waker: old(self)@.live[id].waker },
            ));
        }
    }

    fn unlink(&mut self, id: usize)
        requires
            old(self).wf(),
            old(self).order@.contains(id),
        ensures
            final(self).covered_but(id as int),
            final(self).is_live(id as int),
            !final(self).order@.contains(id),
            final(self)@ == (QueueView { order: old(self)@.order.remove_value(id), ..old(self)@ }),
    {
        let ghost order = self.order@;
        let ghost k = order.index_of_first(id)->0;
        proof {
            order.index_of_first_ensures(id);
            assert(self.linked(order, k));
            if k > 0 {
                assert(self.linked(order, k - 1));
            }
            if k + 1 < order.len() {
                assert(self.linked(order, k + 1));
            }
        }
        let waiter = self.get(id);
        let (previous, next) = (waiter.previous, waiter.next);
        if let Some(previous) = previous {
            self.get_mut(previous).next = next;
        } else {
            self.head = next;
        }
        if let Some(next) = next {
            self.get_mut(next).previous = previous;
        } else {
            self.tail = previous;
        }
        let waiter = self.get_mut(id);
        waiter.previous = None;
        waiter.next = None;
        self.order = Ghost(order.remove(k));
        proof {
            let rest = self.order@;
            assert forall|i: int| 0 <= i < rest.len() implies #[trigger] self.linked(rest, i) by {
                let at = if i < k { i } else { i + 1 };
                assert(old(self).linked(order, at));
            }
            assert(rest.no_duplicates());
            assert(!rest.contains(id));
            self.lemma_chain_kept(*old(self));
            assert forall|j: int| 0 <= j < self.slots@.len() && j != id implies match #[trigger] self.slots@[j] {
                WaiterSlot::Live(waiter) => waiter.kind is Queued ==> rest.contains(j as usize),
                WaiterSlot::Free(_) => self.vacant@.contains(j as usize),
            } by {
                assert(old(self).slots@[j] is Live == self.slots@[j] is Live);
                if order.contains(j as usize) {
                    let m = order.index_of(j as usize);
                    assert(rest[if m < k { m } else { m - 1 }] == j as usize);
                }
            }
            assert(self@.live =~= old(self)@.live);
        }
    }

    /// Whether the queue would find `token` among its own slots.
    pub open spec fn owns(self, token: Option<usize>) -> bool {
        token is Some ==> self@.live.contains_key(token->0)
    }

    /// Every wait queue is consistent as its users see it.
    pub proof fn lemma_consistent(self)
        requires
            self.wf(),
        ensures
            self@.consistent(),
    {
        let seen = self@;
        assert forall|id: usize| #[trigger] seen.order.contains(id) <==> (seen.live.contains_key(id)
            && seen.live[id].kind is Queued) by {
            if seen.order.contains(id) {
                assert(self.linked(seen.order, seen.order.index_of(id)));
            }
            if seen.live.contains_key(id) {
                assert(self.slots@[id as int] is Live);
            }
        }
        assert forall|id: usize| #[trigger] seen.vacant.contains(id) implies !seen.live.contains_key(id)
            && id < seen.slots by {
            assert(self.chained(seen.vacant, seen.vacant.index_of(id)));
        }
        assert forall|id: usize| id < seen.slots implies #[trigger] seen.live.contains_key(id)
            || seen.vacant.contains(id) by {
            assert(self.slots@[id as int] is Live || self.slots@[id as int] is Free);
        }
    }

    /// How the waiter of this slot stands with the queue.
    pub fn kind(&self, id: usize) -> (kind: WakeKind)
        requires
            self@.live.contains_key(id),
        ensures
            kind == self@.live[id].kind,
    {
        self.get(id).kind
    }

    /// The waker that a registration under `token` holds.
    pub fn waker(&self, token: Option<usize>) -> (waker: Option<&W>)
        requires
            self.owns(token),
        ensures
            token is None ==> waker is None,
            token is Some ==> (match self@.live[token->0].waker {
                Some(held) => waker == Some(&held),
                None => waker is None,
            }),
    {
        match token {
            Some(id) => self.get(id).waker.as_ref(),
            None => None,
        }
    }

    /// Put the waiter of `token` in line, under a new slot if it has none, and
    /// give it `waker`. A waiter already in line keeps its place, and one
    /// registered without a waker keeps the waker it had.
    ///
    /// A replaced waker is handed back, so that it is destroyed outside
    /// whatever lock guards the queue.
    pub fn register(&mut self, token: &mut Option<usize>, waker: Option<W>) -> (replaced: Option<W>)
        requires
            old(self).wf(),
            old(self).owns(*old(token)),
            old(self)@.has_room(*old(token)),
        ensures
            final(self).wf(),
            *final(token) == Some(old(self)@.slot_for(*old(token))),
            final(self).owns(*final(token)),
            final(self)@ == old(self)@.registered(*old(token), waker),
            replaced == (if waker is Some && *old(token) is Some {
                old(self)@.live[old(token)->0].waker
            } else {
                None
            }),
    {
        let id: usize = match *token {
            Some(id) => {
                if self.get(id).kind != WakeKind::Queued {
                    proof {
                        if self.order@.contains(id) {
                            assert(self.linked(self.order@, self.order@.index_of(id)));
                        }
                    }
                    self.enqueue(id);
                }
                id
            },
            None => {
                let waiter = Waiter {
                    previous: None,
                    next: None,
                    kind: WakeKind::Queued,
                    waker: None,
                };
                let id: usize = if let Some(id) = self.free {
                    self.reuse(id, waiter);
                    id
                } else {
                    self.grow(waiter)
                };
                *token = Some(id);
                self.enqueue(id);
                id
            },
        };
        assert(self@ == old(self)@.lined_up(*old(token)));
        assert(self@.live.contains_key(id));
        assert(self.is_live(id as int));
        let ghost lined = *self;
        match waker {
            Some(waker) => {
                let waiter = self.get_mut(id);
                let replaced = waiter.waker.take();
                waiter.waker = Some(waker);
                proof {
                    self.lemma_relabelled(lined, id);
                    assert(self@ =~= lined@.holding(id, Some(waker)));
                }
                replaced
            },
            None => None,
        }
    }

    /// Changing what a live waiter holds, but neither its links nor whether it
    /// is queued, keeps the queue well formed.
    proof fn lemma_relabelled(self, before: Self, id: usize)
        requires
            before.wf(),
            before.is_live(id as int),
            self.slots@.len() == before.slots@.len(),
            self.is_live(id as int),
            self.at(id as int).previous == before.at(id as int).previous,
            self.at(id as int).next == before.at(id as int).next,
            self.at(id as int).kind == before.at(id as int).kind,
            self.slots@ == before.slots@.update(id as int, self.slots@[id as int]),
            self.order == before.order,
            self.vacant == before.vacant,
            self.head == before.head,
            self.tail == before.tail,
            self.free == before.free,
        ensures
            self.wf(),
    {
        let order = self.order@;
        assert forall|i: int| 0 <= i < order.len() implies #[trigger] self.linked(order, i) by {
            assert(before.linked(order, i));
        }
        self.lemma_chain_kept(before);
        assert forall|j: int| 0 <= j < self.slots@.len() implies match #[trigger] self.slots@[j] {
            WaiterSlot::Live(waiter) => waiter.kind is Queued ==> order.contains(j as usize),
            WaiterSlot::Free(_) => self.vacant@.contains(j as usize),
        } by {
            assert(before.slots@[j] is Live == self.slots@[j] is Live);
        }
    }

    /// Hand out the first vacant slot.
    fn reuse(&mut self, id: usize, waiter: Waiter<W>)
        requires
            old(self).wf(),
            old(self).free == Some(id),
        ensures
            final(self).covered_but(id as int),
            final(self).is_live(id as int),
            final(self).at(id as int) == waiter,
            !final(self).order@.contains(id),
            id == old(self)@.vacant[0],
            old(self)@.vacant.len() > 0,
            final(self)@ == (QueueView {
                live: old(self)@.live.insert(
                    id,
                    Entry { kind: waiter.kind, waker: waiter.waker },
                ),
                vacant: old(self)@.vacant.drop_first(),
                ..old(self)@
            }),
    {
        let ghost vacant = self.vacant@;
        assert(self.chained(vacant, 0));
        self.free = match &self.slots[id] {
            WaiterSlot::Free(next) => *next,
            WaiterSlot::Live(_) => vstd::pervasive::unreached(),
        };
        self.slots[id] = WaiterSlot::Live(waiter);
        self.vacant = Ghost(vacant.drop_first());
        proof {
            let left = self.vacant@;
            assert forall|i: int| 0 <= i < left.len() implies #[trigger] self.chained(left, i) by {
                assert(old(self).chained(vacant, i + 1));
                assert(left[i] == vacant[i + 1]);
            }
            let order = self.order@;
            assert forall|i: int| 0 <= i < order.len() implies #[trigger] self.linked(order, i) by {
                assert(old(self).linked(order, i));
            }
            assert(!order.contains(id)) by {
                if order.contains(id) {
                    assert(old(self).linked(order, order.index_of(id)));
                }
            }
            assert forall|j: int| 0 <= j < self.slots@.len() && j != id implies match #[trigger] self.slots@[j] {
                WaiterSlot::Live(waiter) => waiter.kind is Queued ==> order.contains(j as usize),
                WaiterSlot::Free(_) => left.contains(j as usize),
            } by {
                assert(old(self).slots@[j] == self.slots@[j]);
                if vacant.contains(j as usize) {
                    assert(left[vacant.index_of(j as usize) - 1] == j as usize);
                }
            }
            assert(self@.live =~= old(self)@.live.insert(
                id,
                Entry { kind: waiter.kind, waker: waiter.waker },
            ));
        }
    }

    /// Add a slot.
    fn grow(&mut self, waiter: Waiter<W>) -> (id: usize)
        requires
            old(self).wf(),
            old(self).free is None,
            old(self)@.slots < usize::MAX,
        ensures
            final(self).covered_but(id as int),
            final(self).is_live(id as int),
            final(self).at(id as int) == waiter,
            !final(self).order@.contains(id),
            old(self)@.vacant.len() == 0,
            id == old(self)@.slots,
            final(self)@ == (QueueView {
                live: old(self)@.live.insert(
                    id,
                    Entry { kind: waiter.kind, waker: waiter.waker },
                ),
                slots: old(self)@.slots + 1,
                ..old(self)@
            }),
    {
        self.slots.push(WaiterSlot::Live(waiter));
        let id: usize = self.slots.len() - 1;
        proof {
            let order = self.order@;
            assert forall|i: int| 0 <= i < order.len() implies #[trigger] self.linked(order, i) by {
                assert(old(self).linked(order, i));
            }
            assert(!order.contains(id)) by {
                if order.contains(id) {
                    assert(old(self).linked(order, order.index_of(id)));
                }
            }
            assert forall|j: int| 0 <= j < self.slots@.len() && j != id implies match #[trigger] self.slots@[j] {
                WaiterSlot::Live(waiter) => waiter.kind is Queued ==> order.contains(j as usize),
                WaiterSlot::Free(_) => self.vacant@.contains(j as usize),
            } by {
                assert(old(self).slots@[j] == self.slots@[j]);
            }
            assert(self@.live =~= old(self)@.live.insert(
                id,
                Entry { kind: waiter.kind, waker: waiter.waker },
            ));
        }
        id
    }

    /// Give up the slot of `token`, wherever its waiter stands, and hand the
    /// waiter back. The token is spent.
    pub fn remove(&mut self, token: &mut Option<usize>) -> (removed: Option<Entry<W>>)
        requires
            old(self).wf(),
            old(self).owns(*old(token)),
        ensures
            final(self).wf(),
            *final(token) is None,
            removed is Some == *old(token) is Some,
            *old(token) is None ==> final(self)@ == old(self)@,
            *old(token) is Some ==> {
                &&& final(self)@ == old(self)@.removed(old(token)->0)
                &&& removed->0 == old(self)@.live[old(token)->0]
            },
    {
        let id: usize = match token.take() {
            Some(id) => id,
            None => {
                return None;
            },
        };
        if self.get(id).kind == WakeKind::Queued {
            assert(self.slots@[id as int] is Live);
            self.unlink(id);
        } else {
            proof {
                if self.order@.contains(id) {
                    assert(self.linked(self.order@, self.order@.index_of(id)));
                }
                self.order@.index_of_first_ensures(id);
            }
        }
        let ghost apart = *self;
        assert(apart@.order == old(self)@.order.remove_value(id));
        let mut slot = WaiterSlot::Free(self.free);
        std::mem::swap(&mut slot, &mut self.slots[id]);
        self.free = Some(id);
        self.vacant = Ghost(seq![id] + apart.vacant@);
        proof {
            let order = self.order@;
            let vacant = self.vacant@;
            assert forall|i: int| 0 <= i < order.len() implies #[trigger] self.linked(order, i) by {
                assert(apart.linked(order, i));
                assert(order.contains(order[i]));
            }
            assert(!apart.vacant@.contains(id)) by {
                if apart.vacant@.contains(id) {
                    assert(apart.chained(apart.vacant@, apart.vacant@.index_of(id)));
                }
            }
            assert forall|i: int| 0 <= i < vacant.len() implies #[trigger] self.chained(vacant, i) by {
                if i > 0 {
                    assert(apart.chained(apart.vacant@, i - 1));
                    assert(vacant[i] == apart.vacant@[i - 1]);
                    assert(apart.vacant@.contains(vacant[i]));
                }
            }
            assert(vacant.no_duplicates());
            assert forall|j: int| 0 <= j < self.slots@.len() implies match #[trigger] self.slots@[j] {
                WaiterSlot::Live(waiter) => waiter.kind is Queued ==> order.contains(j as usize),
                WaiterSlot::Free(_) => vacant.contains(j as usize),
            } by {
                if j == id {
                    assert(vacant[0] == id);
                } else {
                    assert(apart.slots@[j] == self.slots@[j]);
                    if apart.vacant@.contains(j as usize) {
                        assert(vacant[apart.vacant@.index_of(j as usize) + 1] == j as usize);
                    }
                }
            }
            assert(self@.live =~= old(self)@.live.remove(id));
        }
        match slot {
            WaiterSlot::Live(waiter) => Some(Entry { kind: waiter.kind, waker: waiter.waker }),
            WaiterSlot::Free(_) => vstd::pervasive::unreached(),
        }
    }

    /// Grant the first in line and take its waker. The outer `Option` says
    /// that a waiter was granted, even if it had no waker yet.
    pub fn grant_one(&mut self) -> (granted: Option<Option<W>>)
        requires
            old(self).wf(),
        ensures
            final(self).wf(),
            final(self)@ == old(self)@.granted_one(),
            granted is Some == (old(self)@.order.len() > 0),
            granted is Some ==> granted->0 == old(self)@.first_waker(),
    {
        let id: usize = match self.head {
            Some(id) => id,
            None => {
                return None;
            },
        };
        Some(self.grant(id, WakeKind::One))
    }

    /// Take the first in line out of it.
    fn grant(&mut self, id: usize, kind: WakeKind) -> (waker: Option<W>)
        requires
            old(self).wf(),
            old(self).order@.len() > 0,
            id == old(self).order@[0],
            !(kind is Queued),
        ensures
            final(self).wf(),
            waker == old(self)@.live[id].waker,
            final(self)@ == (QueueView {
                order: old(self)@.order.drop_first(),
                live: old(self)@.live.insert(id, Entry { kind, waker: None }),
                ..old(self)@
            }),
    {
        let ghost order = self.order@;
        proof {
            assert(self.linked(order, 0));
            assert(order.contains(id));
            order.index_of_first_ensures(id);
        }
        self.unlink(id);
        let ghost apart = *self;
        assert(apart.order@ =~= order.drop_first());
        let waiter = self.get_mut(id);
        waiter.kind = kind;
        let waker = waiter.waker.take();
        proof {
            let rest = self.order@;
            assert forall|i: int| 0 <= i < rest.len() implies #[trigger] self.linked(rest, i) by {
                assert(apart.linked(rest, i));
                assert(rest.contains(rest[i]));
            }
            self.lemma_chain_kept(apart);
            assert forall|j: int| 0 <= j < self.slots@.len() implies match #[trigger] self.slots@[j] {
                WaiterSlot::Live(waiter) => waiter.kind is Queued ==> rest.contains(j as usize),
                WaiterSlot::Free(_) => self.vacant@.contains(j as usize),
            } by {
                assert(apart.slots@[j] is Live == self.slots@[j] is Live);
            }
            assert(self@.live =~= old(self)@.live.insert(id, Entry { kind, waker: None }));
        }
        waker
    }

    /// Grant everyone in line, and take their wakers in the order of arrival.
    pub fn grant_all(&mut self) -> (wakers: Vec<W>)
        requires
            old(self).wf(),
        ensures
            final(self).wf(),
            final(self)@ == old(self)@.granted_all(),
            wakers@ == wakers_of(old(self)@.order, old(self)@.live),
    {
        let mut wakers: Vec<W> = Vec::new();
        let ghost before = self@;
        let ghost mut done: int = 0;
        proof {
            self.lemma_consistent();
        }
        while self.head.is_some()
            invariant
                self.wf(),
                before.consistent(),
                0 <= done <= before.order.len(),
                self@.order == before.order.skip(done),
                self@.vacant == before.vacant,
                self@.slots == before.slots,
                self@.live.dom() == before.live.dom(),
                forall|id: usize|
                    #![trigger self@.live[id]]
                    before.live.contains_key(id) ==> self@.live[id] == (if before.order.take(
                        done,
                    ).contains(id) {
                        Entry { kind: WakeKind::All, waker: None }
                    } else {
                        before.live[id]
                    }),
                wakers@ == wakers_of(before.order.take(done), before.live),
            decreases before.order.len() - done,
        {
            let id: usize = self.head.unwrap();
            proof {
                assert(self@.order.len() > 0);
                assert(id == before.order[done]);
                assert(self@.order.drop_first() =~= before.order.skip(done + 1));
                let taken = before.order.take(done);
                let more = before.order.take(done + 1);
                assert(more.drop_last() =~= taken);
                assert(more =~= taken.push(id));
                assert(before.order.contains(id));
                assert(!taken.contains(id)) by {
                    if taken.contains(id) {
                        let k = taken.index_of(id);
                        assert(before.order[k] == id);
                    }
                }
                assert forall|other: usize| #[trigger] more.contains(other) <==> (taken.contains(other)
                    || other == id) by {
                    if taken.contains(other) {
                        assert(more[taken.index_of(other)] == other);
                    }
                    assert(more[done] == id);
                }
            }
            let ghost stage = self@;
            let waker = self.grant(id, WakeKind::All);
            match waker {
                Some(waker) => wakers.push(waker),
                None => {},
            }
            proof {
                assert(self@.live.dom() =~= before.live.dom());
                done = done + 1;
            }
        }
        proof {
            assert(self@.order.len() == 0);
            assert(before.order.take(done) =~= before.order);
            assert(self@.order =~= Seq::<usize>::empty());
            assert(self@.live =~= before.granted_all().live);
        }
        wakers
    }
}

/// A waiter that joins stands behind everyone who was there, in a slot that is
/// its own, with the waker that it offers; nobody else is disturbed.
pub proof fn law_a_waiter_joins_at_the_end<W>(queue: QueueView<W>, waker: Option<W>, other: usize)
    requires
        queue.consistent(),
        queue.has_room(None),
    ensures
        ({
            let after = queue.registered(None, waker);
            let id = queue.slot_for(None);
            &&& after.order.len() == queue.order.len() + 1
            &&& after.order.last() == id
            &&& forall|i: int|
                0 <= i < queue.order.len() ==> #[trigger] after.order[i] == queue.order[i]
            &&& !queue.live.contains_key(id)
            &&& after.live.contains_key(id)
            &&& after.live[id].kind is Queued
            &&& after.live[id].waker == waker
            &&& other != id ==> {
                &&& after.live.contains_key(other) == queue.live.contains_key(other)
                &&& queue.live.contains_key(other) ==> after.live[other] == queue.live[other]
            }
        }),
{
    queue.lemma_admitted();
}

/// A waiter that registers again keeps its place while it is in line, and goes
/// to the end where it was granted; it holds the waker that it offers, or the
/// one it had where it offers none; nobody else is disturbed.
pub proof fn law_a_waiter_registers_again<W>(
    queue: QueueView<W>,
    id: usize,
    waker: Option<W>,
    other: usize,
)
    requires
        queue.consistent(),
        queue.live.contains_key(id),
    ensures
        ({
            let after = queue.registered(Some(id), waker);
            &&& queue.slot_for(Some(id)) == id
            &&& queue.live[id].kind is Queued ==> after.order == queue.order
            &&& !(queue.live[id].kind is Queued) ==> after.order == queue.order.push(id)
            &&& after.live.contains_key(id)
            &&& after.live[id].kind is Queued
            &&& after.live[id].waker == (if waker is Some {
                waker
            } else {
                queue.live[id].waker
            })
            &&& other != id ==> {
                &&& after.live.contains_key(other) == queue.live.contains_key(other)
                &&& queue.live.contains_key(other) ==> after.live[other] == queue.live[other]
            }
            &&& after.vacant == queue.vacant && after.slots == queue.slots
        }),
{
}

/// A waiter that leaves is gone from the line wherever it stood, and everybody
/// else keeps standing and order: whoever was before somebody else still is. Its
/// slot is the next to be handed out.
pub proof fn law_leaving_keeps_the_line<W>(queue: QueueView<W>, id: usize, other: usize, i: int, j: int)
    requires
        queue.consistent(),
        queue.live.contains_key(id),
    ensures
        ({
            let after = queue.removed(id);
            &&& !after.order.contains(id)
            &&& !after.live.contains_key(id)
            &&& after.fresh() == id
            &&& after.order.len() == queue.order.len() - (if queue.live[id].kind is Queued {
                1int
            } else {
                0int
            })
            &&& 0 <= i < j < queue.order.len() && queue.order[i] != id && queue.order[j] != id ==> {
                &&& after.order.contains(queue.order[i])
                &&& after.order.contains(queue.order[j])
                &&& after.order.index_of(queue.order[i]) < after.order.index_of(queue.order[j])
            }
            &&& other != id ==> {
                &&& after.live.contains_key(other) == queue.live.contains_key(other)
                &&& queue.live.contains_key(other) ==> after.live[other] == queue.live[other]
            }
        }),
{
    let order = queue.order;
    let after = queue.removed(id);
    order.index_of_first_ensures(id);
    if order.contains(id) {
        let k = order.index_of_first(id)->0;
        assert(after.order == order.remove(k));
        assert(after.order.no_duplicates());
        if 0 <= i < j < order.len() && order[i] != id && order[j] != id {
            let a = if i < k { i } else { i - 1 };
            let b = if j < k { j } else { j - 1 };
            assert(after.order[a] == order[i]);
            assert(after.order[b] == order[j]);
        }
        if after.order.contains(id) {
            let m = after.order.index_of(id);
            assert(order[if m < k { m } else { m + 1 }] == id);
        }
    } else {
        assert(after.order == order);
    }
}

/// A grant to one goes to whoever stands first, and takes that waker; everybody
/// behind moves up and is otherwise as before. Where nobody stands it changes
/// nothing.
pub proof fn law_a_grant_goes_to_the_first<W>(queue: QueueView<W>, other: usize)
    requires
        queue.consistent(),
    ensures
        ({
            let after = queue.granted_one();
            &&& queue.order.len() == 0 ==> after == queue && queue.first_waker() is None
            &&& queue.order.len() > 0 ==> {
                let first = queue.order[0];
                &&& queue.first_waker() == queue.live[first].waker
                &&& after.live.contains_key(first)
                &&& after.live[first].kind is One
                &&& after.live[first].waker is None
                &&& after.order.len() == queue.order.len() - 1
                &&& forall|i: int|
                    0 <= i < after.order.len() ==> #[trigger] after.order[i] == queue.order[i + 1]
                &&& other != first ==> {
                    &&& after.live.contains_key(other) == queue.live.contains_key(other)
                    &&& queue.live.contains_key(other) ==> after.live[other] == queue.live[other]
                }
            }
            &&& after.vacant == queue.vacant && after.slots == queue.slots
        }),
{
}

/// A grant to all empties the line: whoever stood in it is granted and holds no
/// waker, and whoever did not is as before.
pub proof fn law_a_grant_to_all_reaches_everyone<W>(queue: QueueView<W>, id: usize)
    requires
        queue.consistent(),
    ensures
        ({
            let after = queue.granted_all();
            &&& after.order.len() == 0
            &&& after.live.contains_key(id) == queue.live.contains_key(id)
            &&& queue.order.contains(id) ==> {
                &&& after.live[id].kind is All
                &&& after.live[id].waker is None
            }
            &&& queue.live.contains_key(id) && !queue.order.contains(id) ==> after.live[id]
                == queue.live[id]
            &&& after.vacant == queue.vacant && after.slots == queue.slots
        }),
{
}

/// Wakers are called in the order of the line, each waiter's once; a waiter
/// without one is passed over.
pub proof fn law_wakers_are_called_in_line<W>(
    first: Seq<usize>,
    second: Seq<usize>,
    one: usize,
    live: Map<usize, Entry<W>>,
)
    ensures
        wakers_of(first + second, live) == wakers_of(first, live) + wakers_of(second, live),
        wakers_of(seq![one], live) == (match live[one].waker {
            Some(waker) => seq![waker],
            None => Seq::empty(),
        }),
        wakers_of(Seq::empty(), live) == Seq::<W>::empty(),
    decreases second.len(),
{
    reveal_with_fuel(wakers_of, 2);
    assert(seq![one].drop_last() =~= Seq::<usize>::empty());
    assert(wakers_of(seq![one], live) =~= (match live[one].waker {
        Some(waker) => seq![waker],
        None => Seq::empty(),
    }));
    if second.len() == 0 {
        assert(first + second =~= first);
        assert(wakers_of(first, live) + wakers_of(second, live) =~= wakers_of(first, live));
    } else {
        law_wakers_are_called_in_line(first, second.drop_last(), one, live);
        assert((first + second).drop_last() =~= first + second.drop_last());
        assert((first + second).last() == second.last());
        assert(wakers_of(first + second, live) =~= wakers_of(first, live) + wakers_of(
            second,
            live,
        ));
    }
}

} // verus!
