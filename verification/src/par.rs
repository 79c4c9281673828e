//! A parallel loop, as a task: how a range is cut into pieces, how the pieces
//! are counted, and when the loop is over.
//!
//! A loop completes when its last piece does, and awaiting it costs the
//! awaiting task nothing. A piece that is too large gives its right half away,
//! again and again, and runs what it keeps.
use vstd::prelude::*;

verus! {

/// A switch that stops a parallel loop.
///
/// It stops work that has not started. A piece already running finishes its
/// current chunk, so this bounds the work still to come, not the work in
/// flight.
#[derive(Debug)]
pub struct Cancel {
    thrown: bool,
}

impl View for Cancel {
    type V = bool;

    /// The switch has been thrown.
    closed spec fn view(&self) -> bool {
        self.thrown
    }
}

impl Cancel {
    /// A switch that has not been thrown.
    pub fn new() -> (cancel: Self)
        ensures
            !cancel@,
    {
        Cancel { thrown: false }
    }

    /// Stop the loop. Throwing it twice is throwing it once.
    pub fn cancel(&mut self)
        ensures
            final(self)@,
    {
        self.thrown = true;
    }

    /// Whether the switch has been thrown.
    pub fn is_cancelled(&self) -> (thrown: bool)
        ensures
            thrown == self@,
    {
        self.thrown
    }
}

/// How many pieces each worker gets on average. Several, so that stealing has
/// something to move: an even split is only balanced if every item costs the
/// same and every worker is free.
pub const PIECES_PER_WORKER: usize = 8;

/// The indices from `start` up to but not including `end`. Nothing where `end`
/// does not lie behind `start`.
#[derive(Debug, Clone, Copy, PartialEq, Eq, Structural)]
pub struct Span {
    pub start: usize,
    pub end: usize,
}

impl Span {
    /// How many indices there are.
    pub open spec fn count(self) -> nat {
        if self.end > self.start {
            (self.end - self.start) as nat
        } else {
            0
        }
    }

    /// The indices, in order.
    pub open spec fn indices(self) -> Seq<int> {
        Seq::new(self.count(), |i: int| self.start + i)
    }

    /// Where the span is cut in two.
    pub open spec fn middle(self) -> usize {
        (self.start + (self.end - self.start) / 2) as usize
    }

    /// The half that is kept.
    pub open spec fn left(self) -> Span {
        Span { start: self.start, end: self.middle() }
    }

    /// The half that is given away.
    pub open spec fn right(self) -> Span {
        Span { start: self.middle(), end: self.end }
    }

    /// What a piece runs itself, with pieces of at most `leaf`.
    pub open spec fn kept(self, leaf: usize) -> Span
        decreases self.count(),
    {
        if leaf > 0 && self.count() > leaf {
            self.left().kept(leaf)
        } else {
            self
        }
    }

    /// What a piece gives away, in the order it gives it.
    pub open spec fn given(self, leaf: usize) -> Seq<Span>
        decreases self.count(),
    {
        if leaf > 0 && self.count() > leaf {
            seq![self.right()] + self.left().given(leaf)
        } else {
            Seq::empty()
        }
    }

    /// How many indices there are.
    pub fn len(&self) -> (count: usize)
        ensures
            count == self.count(),
    {
        if self.end > self.start {
            self.end - self.start
        } else {
            0
        }
    }
}

/// How small a piece of a loop of `len` gets by default.
pub fn leaf_size(len: usize, workers: usize) -> (leaf: usize)
    requires
        workers > 0,
        workers * PIECES_PER_WORKER <= usize::MAX,
    ensures
        leaf == (if len as int / (workers * PIECES_PER_WORKER) < 1 {
            1int
        } else {
            len as int / (workers * PIECES_PER_WORKER)
        }),
        leaf > 0,
        len >= 8 * workers ==> leaf * (8 * workers) <= len < (leaf + 1) * (8 * workers),
        len < 8 * workers ==> leaf == 1,
{
    proof {
        let parts: int = 8 * workers;
        vstd::arithmetic::div_mod::lemma_fundamental_div_mod(len as int, parts);
        vstd::arithmetic::div_mod::lemma_mod_bound(len as int, parts);
        let whole: int = len as int / parts;
        vstd::arithmetic::mul::lemma_mul_is_commutative(parts, whole);
        vstd::arithmetic::mul::lemma_mul_is_distributive_add_other_way(parts, whole, 1);
        if len < parts {
            vstd::arithmetic::div_mod::lemma_basic_div(len as int, parts);
        } else {
            vstd::arithmetic::div_mod::lemma_div_non_zero(len as int, parts);
        }
    }
    let size: usize = len / (workers * PIECES_PER_WORKER);
    if size < 1 {
        1
    } else {
        size
    }
}

/// What a piece does: the span it runs, and the spans it gives away first.
pub struct Work {
    pub kept: Span,
    pub given: Vec<Span>,
}

/// Decide on one piece. A cancelled piece does nothing. A piece larger than
/// `leaf` gives its right half to the pool and keeps the left, until what it
/// keeps is small enough.
///
/// The cutting is a loop rather than a recursion: recursion would put the whole
/// depth on one worker's stack.
pub fn work(span: Span, leaf: usize, cancel: &Cancel) -> (work: Option<Work>)
    requires
        leaf > 0,
    ensures
        work is None <==> cancel@,
        work is Some ==> {
            &&& work->0.kept == span.kept(leaf)
            &&& work->0.given@ == span.given(leaf)
            &&& tiles(span, work->0.kept, work->0.given@)
            &&& work->0.kept.end - work->0.kept.start <= leaf
        },
{
    if cancel.is_cancelled() {
        return None;
    }
    let mut kept = span;
    let mut given: Vec<Span> = Vec::new();
    while kept.len() > leaf
        invariant
            leaf > 0,
            kept.kept(leaf) == span.kept(leaf),
            given@ + kept.given(leaf) == span.given(leaf),
        decreases kept.count(),
    {
        let ghost before = kept;
        let middle: usize = kept.start + (kept.end - kept.start) / 2;
        let right = Span { start: middle, end: kept.end };
        kept = Span { start: kept.start, end: middle };
        given.push(right);
        proof {
            assert(kept == before.left() && right == before.right());
            assert(given@ + kept.given(leaf) =~= given@.drop_last() + before.given(leaf));
        }
    }
    assert(given@ =~= span.given(leaf));
    proof {
        law_a_piece_is_cut_without_gaps(span, leaf);
    }
    Some(Work { kept, given })
}

/// What is kept and what is given away lie one behind the other, with neither a
/// gap nor an overlap: the kept span begins where the whole does, each given one
/// ends where the one given before it begins, and the first ends where the whole
/// does.
pub open spec fn tiles(span: Span, kept: Span, given: Seq<Span>) -> bool {
    &&& kept.start == span.start
    &&& kept.end == (if given.len() == 0 {
        span.end
    } else {
        given.last().start
    })
    &&& given.len() > 0 ==> given[0].end == span.end
    &&& forall|i: int|
        0 < i < given.len() ==> (#[trigger] given[i]).end == given[i - 1].start
    &&& forall|i: int|
        0 <= i < given.len() ==> (#[trigger] given[i]).start < given[i].end
}

/// A piece is cut without gaps and without overlaps, until what it keeps is no
/// larger than it may be; one that is small enough is not cut at all.
pub proof fn law_a_piece_is_cut_without_gaps(span: Span, leaf: usize)
    requires
        leaf > 0,
    ensures
        tiles(span, span.kept(leaf), span.given(leaf)),
        span.kept(leaf).end - span.kept(leaf).start <= leaf,
        span.end - span.start <= leaf ==> span.kept(leaf) == span && span.given(leaf).len() == 0,
    decreases span.count(),
{
    if span.count() > leaf {
        law_a_piece_is_cut_without_gaps(span.left(), leaf);
        let rest = span.left().given(leaf);
        let given = span.given(leaf);
        assert(given == seq![span.right()] + rest);
        assert forall|i: int| 0 < i < given.len() implies (#[trigger] given[i]).end == given[i
            - 1].start by {
            assert(given[i] == rest[i - 1]);
            if i > 1 {
                assert(given[i - 1] == rest[i - 2]);
            }
        }
        assert forall|i: int| 0 <= i < given.len() implies (#[trigger] given[i]).start
            < given[i].end by {
            if i > 0 {
                assert(given[i] == rest[i - 1]);
            }
        }
        if rest.len() > 0 {
            assert(given.last() == rest.last());
            assert(given[1] == rest[0]);
        }
    }
}

/// A piece is cut in the middle: the two halves are the piece, and neither is
/// more than one index longer than the other.
pub proof fn law_a_piece_is_cut_in_the_middle(span: Span)
    requires
        span.start < span.end,
    ensures
        span.left().start == span.start,
        span.left().end == span.right().start,
        span.right().end == span.end,
        span.left().end - span.left().start <= span.right().end - span.right().start,
        span.right().end - span.right().start <= span.left().end - span.left().start + 1,
{
}

/// Decide on one piece that a worker has taken up. Where the pool is gone there
/// is nowhere to give a half to, so the loop is cancelled.
pub fn run(pool_alive: bool, span: Span, leaf: usize, cancel: &mut Cancel) -> (work: Option<Work>)
    requires
        leaf > 0,
    ensures
        final(cancel)@ == (old(cancel)@ || !pool_alive),
        work is None <==> final(cancel)@,
        work is Some ==> {
            &&& work->0.kept == span.kept(leaf)
            &&& work->0.given@ == span.given(leaf)
            &&& tiles(span, work->0.kept, work->0.given@)
            &&& work->0.kept.end - work->0.kept.start <= leaf
        },
{
    if !pool_alive {
        cancel.cancel();
        return None;
    }
    self::work(span, leaf, cancel)
}

/// The count of a loop's pieces, and who waits for the last of them.
pub struct Shared<W, P> {
    /// Pieces handed to the pool and not yet finished, plus one for the root
    /// until it has been handed over.
    outstanding: usize,
    finished: bool,
    waiter: Option<W>,
    panic: Option<P>,
}

/// A [`Shared`] as its users see it.
pub struct SharedView<W, P> {
    pub outstanding: nat,
    /// The last piece has retired.
    pub finished: bool,
    pub waiter: Option<W>,
    /// The first panic of a piece that nobody has taken over yet.
    pub panic: Option<P>,
}

impl<W, P> View for Shared<W, P> {
    type V = SharedView<W, P>;

    closed spec fn view(&self) -> SharedView<W, P> {
        SharedView {
            outstanding: self.outstanding as nat,
            finished: self.finished,
            waiter: self.waiter,
            panic: self.panic,
        }
    }
}

impl<W, P> SharedView<W, P> {
    /// What holds of every loop: it is finished exactly when no piece is
    /// outstanding.
    pub open spec fn consistent(self) -> bool {
        self.finished <==> self.outstanding == 0
    }

    /// One more piece is outstanding.
    pub open spec fn published(self) -> Self {
        SharedView { outstanding: self.outstanding + 1, ..self }
    }

    /// A piece has retired. The last one finishes the loop.
    pub open spec fn retired(self) -> Self {
        if self.outstanding == 1 {
            SharedView { outstanding: 0, finished: true, waiter: None, ..self }
        } else {
            SharedView { outstanding: (self.outstanding - 1) as nat, ..self }
        }
    }
}

impl<W, P> Shared<W, P> {
    /// Well-formedness.
    pub open spec fn wf(self) -> bool {
        self@.consistent() && self@.outstanding <= usize::MAX
    }

    /// One outstanding piece: the whole range, not yet handed over.
    pub fn new() -> (shared: Self)
        ensures
            shared.wf(),
            shared@ == (SharedView::<W, P> {
                outstanding: 1,
                finished: false,
                waiter: None,
                panic: None,
            }),
    {
        Shared { outstanding: 1, finished: false, waiter: None, panic: None }
    }

    /// Count a piece, before it is published. The other order would let the
    /// piece retire against a count that has not been raised yet.
    pub fn publish(&mut self)
        requires
            old(self).wf(),
            0 < old(self)@.outstanding < usize::MAX,
        ensures
            final(self).wf(),
            final(self)@ == old(self)@.published(),
    {
        self.outstanding = self.outstanding + 1;
    }

    /// One piece is gone, run or not. The waker handed back is to be called:
    /// the loop is over.
    pub fn retire(&mut self) -> (waker: Option<W>)
        requires
            old(self).wf(),
            old(self)@.outstanding > 0,
        ensures
            final(self).wf(),
            final(self)@ == old(self)@.retired(),
            waker == (if old(self)@.outstanding == 1 {
                old(self)@.waiter
            } else {
                None
            }),
    {
        self.outstanding = self.outstanding - 1;
        if self.outstanding != 0 {
            return None;
        }
        self.finished = true;
        self.waiter.take()
    }

    /// Whether the last piece has retired.
    pub fn is_finished(&self) -> (finished: bool)
        ensures
            finished == self@.finished,
    {
        self.finished
    }

    /// Wait for the last piece. A waker that is no longer held is handed back.
    pub fn park(&mut self, waker: W) -> (dropped: Option<W>)
        requires
            old(self).wf(),
        ensures
            final(self).wf(),
            final(self)@ == (SharedView { waiter: Some(waker), ..old(self)@ }),
            dropped == old(self)@.waiter,
    {
        let dropped = self.waiter.take();
        self.waiter = Some(waker);
        dropped
    }

    /// Keep a panic for whoever awaits the loop. Only the first is kept; a
    /// later one is handed back.
    pub fn record_panic(&mut self, payload: P) -> (dropped: Option<P>)
        requires
            old(self).wf(),
        ensures
            final(self).wf(),
            final(self)@.outstanding == old(self)@.outstanding,
            final(self)@.finished == old(self)@.finished,
            final(self)@.waiter == old(self)@.waiter,
            final(self)@.panic == (if old(self)@.panic is Some {
                old(self)@.panic
            } else {
                Some(payload)
            }),
            dropped == (if old(self)@.panic is Some {
                Some(payload)
            } else {
                None
            }),
    {
        if self.panic.is_none() {
            self.panic = Some(payload);
            None
        } else {
            Some(payload)
        }
    }

    /// A piece panicked: cancel what remains, and keep the panic.
    pub fn panicked(&mut self, cancel: &mut Cancel, payload: P) -> (dropped: Option<P>)
        requires
            old(self).wf(),
        ensures
            final(self).wf(),
            final(cancel)@,
            final(self)@ == (SharedView {
                panic: if old(self)@.panic is Some {
                    old(self)@.panic
                } else {
                    Some(payload)
                },
                ..old(self)@
            }),
            dropped == (if old(self)@.panic is Some {
                Some(payload)
            } else {
                None
            }),
    {
        cancel.cancel();
        self.record_panic(payload)
    }

    /// Take the panic over, to be resumed.
    pub fn resume_panic(&mut self) -> (payload: Option<P>)
        requires
            old(self).wf(),
        ensures
            final(self).wf(),
            final(self)@ == (SharedView { panic: None, ..old(self)@ }),
            payload == old(self)@.panic,
    {
        self.panic.take()
    }
}

/// A parallel loop that has not finished yet.
pub struct ParFor {
    span: Span,
    leaf: usize,
    started: bool,
}

/// What a poll of a loop wants next.
pub enum LoopStep<P> {
    /// Hand this span to the pool as the first piece, and poll again.
    Submit(Span),
    /// The waker is parked.
    Pending,
    /// The loop is over, and this panic, if any, is to be resumed.
    Ready(Option<P>),
}

/// What one turn of a poll of a loop comes to.
pub struct LoopTurn<W, P> {
    pub step: LoopStep<P>,
    /// A waker to be destroyed: one that is no longer held, or the one that
    /// was offered and not needed.
    pub dropped: Option<W>,
    /// A waker to be called.
    pub wake: Option<W>,
}

impl ParFor {
    /// The indices of the loop.
    pub closed spec fn span(self) -> Span {
        self.span
    }

    /// How small a piece may get.
    pub closed spec fn leaf_items(self) -> usize {
        self.leaf
    }

    /// The loop has been polled.
    pub closed spec fn started(self) -> bool {
        self.started
    }

    /// Well-formedness: a piece can get small enough.
    pub open spec fn wf(self) -> bool {
        self.leaf_items() > 0
    }

    /// Run a body for every index of `span` on a pool of `workers`. Nothing
    /// happens until the first poll.
    pub fn new(span: Span, workers: usize) -> (loop_: Self)
        requires
            workers > 0,
            workers * PIECES_PER_WORKER <= usize::MAX,
        ensures
            loop_.wf(),
            loop_.span() == span,
            loop_.leaf_items() == (if span.count() as int / (workers * PIECES_PER_WORKER) < 1 {
                1int
            } else {
                span.count() as int / (workers * PIECES_PER_WORKER)
            }),
            !loop_.started(),
    {
        ParFor { span, leaf: leaf_size(span.len(), workers), started: false }
    }

    /// How small a piece may get before it is run rather than split further,
    /// which is how soon a cancelled loop stops. Ignored once the loop has
    /// been polled, because by then the work is out.
    pub fn leaf(self, items: usize) -> (loop_: Self)
        requires
            self.wf(),
        ensures
            loop_.wf(),
            loop_.span() == self.span(),
            loop_.started() == self.started(),
            loop_.leaf_items() == (if self.started() {
                self.leaf_items()
            } else if items < 1 {
                1
            } else {
                items
            }),
    {
        if self.started {
            return self;
        }
        ParFor {
            span: self.span,
            leaf: if items < 1 {
                1
            } else {
                items
            },
            started: false,
        }
    }

    /// The switch that stops the loop: `cancel` in place of its own, unless
    /// the loop has been polled.
    pub fn cancel_with<C>(&self, own: C, cancel: C) -> (chosen: C)
        ensures
            chosen == (if self.started() {
                own
            } else {
                cancel
            }),
    {
        if self.started {
            own
        } else {
            cancel
        }
    }

    /// Give the loop up. A loop that nobody awaits any more is stopped: its
    /// switch is thrown, whether the loop was polled or not.
    pub fn give_up(self, cancel: &mut Cancel)
        ensures
            final(cancel)@,
    {
        cancel.cancel();
    }

    /// How small a piece may get.
    pub fn piece_size(&self) -> (items: usize)
        ensures
            items == self.leaf_items(),
    {
        self.leaf
    }

    /// Poll the loop. The first poll hands the whole range over, unless there
    /// is nothing to do; splitting is itself work, and doing it on the pool
    /// means it is parallel too.
    pub fn poll<W, P>(&mut self, shared: &mut Shared<W, P>, cancel: &Cancel, waker: W) -> (turn:
        LoopTurn<W, P>)
        requires
            old(shared).wf(),
            !old(self).started() ==> old(shared)@.outstanding > 0,
        ensures
            final(shared).wf(),
            final(self).started(),
            final(self).span() == old(self).span(),
            final(self).leaf_items() == old(self).leaf_items(),
            !old(self).started() && (old(self).span().count() == 0 || cancel@) ==> {
                &&& turn.step == LoopStep::<P>::Ready(None)
                &&& turn.dropped == Some(waker)
                &&& final(shared)@ == old(shared)@.retired()
                &&& turn.wake == (if old(shared)@.outstanding == 1 {
                    old(shared)@.waiter
                } else {
                    None
                })
            },
            !old(self).started() && !(old(self).span().count() == 0 || cancel@) ==> {
                &&& turn.step == LoopStep::<P>::Submit(old(self).span())
                &&& turn.dropped == Some(waker)
                &&& turn.wake is None
                &&& final(shared)@ == old(shared)@
            },
            old(self).started() && old(shared)@.finished ==> {
                &&& turn.step == LoopStep::<P>::Ready(old(shared)@.panic)
                &&& turn.dropped == Some(waker)
                &&& turn.wake is None
                &&& final(shared)@ == (SharedView { panic: None, ..old(shared)@ })
            },
            old(self).started() && !old(shared)@.finished ==> {
                &&& turn.step == LoopStep::<P>::Pending
                &&& turn.dropped == old(shared)@.waiter
                &&& turn.wake is None
                &&& final(shared)@ == (SharedView { waiter: Some(waker), ..old(shared)@ })
            },
    {
        if !self.started {
            self.started = true;
            if self.span.len() == 0 || cancel.is_cancelled() {
                let wake = shared.retire();
                return LoopTurn { step: LoopStep::Ready(None), dropped: Some(waker), wake };
            }
            return LoopTurn {
                step: LoopStep::Submit(self.span),
                dropped: Some(waker),
                wake: None,
            };
        }
        if shared.is_finished() {
            let panic = shared.resume_panic();
            return LoopTurn { step: LoopStep::Ready(panic), dropped: Some(waker), wake: None };
        }
        let dropped = shared.park(waker);
        LoopTurn { step: LoopStep::Pending, dropped, wake: None }
    }
}

/// The spans that are run in the end, by whichever worker, in the order of
/// their indices.
pub open spec fn leaves(span: Span, leaf: usize) -> Seq<Span>
    decreases span.count(),
{
    if leaf > 0 && span.count() > leaf {
        leaves(span.left(), leaf) + leaves(span.right(), leaf)
    } else {
        seq![span]
    }
}

/// The indices of several spans, one after the other.
pub open spec fn all_indices(spans: Seq<Span>) -> Seq<int>
    decreases spans.len(),
{
    if spans.len() == 0 {
        Seq::empty()
    } else {
        all_indices(spans.drop_last()) + spans.last().indices()
    }
}

/// The spans that are run for the pieces that are given away, the last given
/// first, since it lies next to what is kept.
pub open spec fn given_leaves(given: Seq<Span>, leaf: usize) -> Seq<Span>
    decreases given.len(),
{
    if given.len() == 0 {
        Seq::empty()
    } else {
        leaves(given.last(), leaf) + given_leaves(given.drop_last(), leaf)
    }
}

proof fn lemma_all_indices_add(a: Seq<Span>, b: Seq<Span>)
    ensures
        all_indices(a + b) == all_indices(a) + all_indices(b),
    decreases b.len(),
{
    if b.len() == 0 {
        assert(a + b =~= a);
        assert(all_indices(a) + all_indices(b) =~= all_indices(a));
    } else {
        assert((a + b).drop_last() =~= a + b.drop_last());
        lemma_all_indices_add(a, b.drop_last());
        assert(all_indices(a + b) =~= all_indices(a) + all_indices(b));
    }
}

/// A loop runs every index of its range exactly once: the spans that are run
/// hold the indices of the range, each of them once and in order, and none is
/// larger than a piece may get.
pub proof fn law_a_loop_covers_its_range(span: Span, leaf: usize)
    requires
        leaf > 0,
    ensures
        all_indices(leaves(span, leaf)) == span.indices(),
        forall|i: int|
            0 <= i < leaves(span, leaf).len() ==> (#[trigger] leaves(span, leaf)[i]).count()
                <= leaf,
    decreases span.count(),
{
    if span.count() > leaf {
        let left = leaves(span.left(), leaf);
        let right = leaves(span.right(), leaf);
        law_a_loop_covers_its_range(span.left(), leaf);
        law_a_loop_covers_its_range(span.right(), leaf);
        lemma_all_indices_add(left, right);
        assert(span.left().indices() + span.right().indices() =~= span.indices());
        assert forall|i: int| 0 <= i < (left + right).len() implies (#[trigger] (left
            + right)[i]).count() <= leaf by {
            if i < left.len() {
                assert((left + right)[i] == left[i]);
            } else {
                assert((left + right)[i] == right[i - left.len()]);
            }
        }
    } else {
        reveal_with_fuel(all_indices, 2);
        assert(seq![span].drop_last() =~= Seq::<Span>::empty());
        assert(all_indices(seq![span]) =~= span.indices());
    }
}

/// What a piece keeps and what it gives away are together what it was handed:
/// nothing is lost between the two and nothing is run twice.
pub proof fn law_a_piece_keeps_or_gives_all_of_it(span: Span, leaf: usize)
    requires
        leaf > 0,
    ensures
        leaves(span, leaf) == seq![span.kept(leaf)] + given_leaves(span.given(leaf), leaf),
        span.kept(leaf).count() <= leaf,
    decreases span.count(),
{
    if span.count() > leaf {
        law_a_piece_keeps_or_gives_all_of_it(span.left(), leaf);
        let rest = span.left().given(leaf);
        lemma_given_first(span.right(), rest, leaf);
        assert(leaves(span, leaf) =~= seq![span.kept(leaf)] + given_leaves(
            span.given(leaf),
            leaf,
        ));
    } else {
        assert(given_leaves(span.given(leaf), leaf) =~= Seq::<Span>::empty());
    }
}

proof fn lemma_given_first(first: Span, rest: Seq<Span>, leaf: usize)
    ensures
        given_leaves(seq![first] + rest, leaf) == given_leaves(rest, leaf) + leaves(first, leaf),
    decreases rest.len(),
{
    let all = seq![first] + rest;
    if rest.len() == 0 {
        reveal_with_fuel(given_leaves, 2);
        assert(all.drop_last() =~= Seq::<Span>::empty());
        assert(given_leaves(all, leaf) =~= given_leaves(rest, leaf) + leaves(first, leaf));
    } else {
        assert(all.drop_last() =~= seq![first] + rest.drop_last());
        assert(all.last() == rest.last());
        lemma_given_first(first, rest.drop_last(), leaf);
        assert(given_leaves(all, leaf) =~= given_leaves(rest, leaf) + leaves(first, leaf));
    }
}

/// The count after `more` pieces were published, one before each was handed
/// over, and `gone` pieces have retired.
pub open spec fn after_pieces<W, P>(shared: SharedView<W, P>, more: nat, gone: nat) -> SharedView<W, P>
    decreases more + gone,
{
    if gone > 0 {
        after_pieces(shared, more, (gone - 1) as nat).retired()
    } else if more > 0 {
        after_pieces(shared, (more - 1) as nat, 0).published()
    } else {
        shared
    }
}

/// A loop is over exactly when every piece that was ever counted has retired,
/// run or unrun: not earlier, and then for certain.
pub proof fn law_a_loop_ends_with_its_last_piece<W, P>(
    shared: SharedView<W, P>,
    more: nat,
    gone: nat,
)
    requires
        shared.consistent(),
        shared.outstanding > 0,
        gone <= shared.outstanding + more,
    ensures
        after_pieces(shared, more, gone).consistent(),
        after_pieces(shared, more, gone).outstanding == shared.outstanding + more - gone,
        after_pieces(shared, more, gone).finished <==> gone == shared.outstanding + more,
    decreases more + gone,
{
    if gone > 0 {
        law_a_loop_ends_with_its_last_piece(shared, more, (gone - 1) as nat);
    } else if more > 0 {
        law_a_loop_ends_with_its_last_piece(shared, (more - 1) as nat, 0);
    }
}

/// A span holds each index from its start up to but not including its end, once
/// and in order, and none where its end does not lie behind its start.
pub proof fn law_a_span_holds_its_indices(span: Span, index: int)
    ensures
        span.indices().len() == (if span.end > span.start {
            span.end - span.start
        } else {
            0
        }),
        span.indices().contains(index) <==> span.start <= index < span.end,
        forall|i: int| 0 <= i < span.indices().len() ==> #[trigger] span.indices()[i] == span.start + i,
{
    if span.start <= index < span.end {
        assert(span.indices()[index - span.start] == index);
    }
}

/// Every index of a loop is in exactly one of the spans that are run.
pub proof fn law_every_index_is_run_once(span: Span, leaf: usize, index: int)
    requires
        leaf > 0,
        span.start <= index < span.end,
    ensures
        exists|k: int|
            0 <= k < leaves(span, leaf).len() && (#[trigger] leaves(span, leaf)[k]).start <= index
                < leaves(span, leaf)[k].end,
        forall|a: int, b: int|
            #![trigger leaves(span, leaf)[a], leaves(span, leaf)[b]]
            0 <= a < leaves(span, leaf).len() && 0 <= b < leaves(span, leaf).len() && leaves(
                span,
                leaf,
            )[a].start <= index < leaves(span, leaf)[a].end && leaves(span, leaf)[b].start <= index
                < leaves(span, leaf)[b].end ==> a == b,
    decreases span.count(),
{
    let all = leaves(span, leaf);
    if span.count() > leaf {
        let left = leaves(span.left(), leaf);
        let right = leaves(span.right(), leaf);
        assert(all == left + right);
        lemma_leaves_inside(span.left(), leaf);
        lemma_leaves_inside(span.right(), leaf);
        assert forall|k: int| 0 <= k < all.len() implies #[trigger] all[k] == (if k < left.len() {
            left[k]
        } else {
            right[k - left.len()]
        }) by {}
        if index < span.middle() {
            law_every_index_is_run_once(span.left(), leaf, index);
            let k = choose|k: int|
                0 <= k < left.len() && (#[trigger] left[k]).start <= index < left[k].end;
            assert(all[k] == left[k]);
        } else {
            law_every_index_is_run_once(span.right(), leaf, index);
            let k = choose|k: int|
                0 <= k < right.len() && (#[trigger] right[k]).start <= index < right[k].end;
            assert(all[k + left.len()] == right[k]);
        }
    } else {
        assert(all[0] == span);
    }
}

proof fn lemma_leaves_inside(span: Span, leaf: usize)
    requires
        leaf > 0,
        span.start <= span.end,
    ensures
        forall|k: int|
            0 <= k < leaves(span, leaf).len() ==> span.start <= (#[trigger] leaves(
                span,
                leaf,
            )[k]).start && leaves(span, leaf)[k].end <= span.end,
    decreases span.count(),
{
    if span.count() > leaf {
        let left = leaves(span.left(), leaf);
        let right = leaves(span.right(), leaf);
        lemma_leaves_inside(span.left(), leaf);
        lemma_leaves_inside(span.right(), leaf);
        let all = leaves(span, leaf);
        assert forall|k: int| 0 <= k < all.len() implies span.start <= (#[trigger] all[k]).start
            && all[k].end <= span.end by {
            if k < left.len() {
                assert(all[k] == left[k]);
            } else {
                assert(all[k] == right[k - left.len()]);
            }
        }
    }
}

/// Publishing a piece raises the count by one and retiring one lowers it by one;
/// the loop is finished by the piece that leaves none, which takes the waiter,
/// and by no other. Neither touches a panic that is kept.
pub proof fn law_pieces_are_counted_one_by_one<W, P>(shared: SharedView<W, P>)
    requires
        shared.outstanding > 0,
    ensures
        shared.published().outstanding == shared.outstanding + 1,
        shared.published().finished == shared.finished,
        shared.published().waiter == shared.waiter,
        shared.published().panic == shared.panic,
        shared.retired().outstanding == shared.outstanding - 1,
        shared.outstanding == 1 ==> shared.retired().finished && shared.retired().waiter is None,
        shared.outstanding > 1 ==> shared.retired().finished == shared.finished
            && shared.retired().waiter == shared.waiter,
        shared.retired().panic == shared.panic,
{
}

} // verus!
