//! The two rings, the operations that go through them, and the ring as a
//! whole.

use crate::bindings::{
    io_uring_cqe, io_uring_params, io_uring_sqe, Enter, Feature, Opcode, CQE_BYTES, INDEX_BYTES,
    SQE_BYTES,
};
use crate::index::{
    advance, distance, gap, is_power_of_two, lemma_advance_distance, lemma_advance_twice,
    lemma_advance_zero, lemma_distance_grows, lemma_distance_range, lemma_distance_rest,
    lemma_mask_is_slot, lemma_slots_distinct, masked, power_of_two, slot, step, steps,
};
use vstd::prelude::*;

verus! {

/// Why the ring refused a request.
#[derive(Clone, Copy, Debug, PartialEq, Eq)]
pub enum RingError {
    /// The setup call reported failure: there is no kernel handle.
    Setup,
    /// A part of a ring would lie outside the region mapped for it.
    Layout,
    /// The sizes, masks or counters of a ring contradict each other.
    Geometry,
    /// Every slot of the submission ring holds an entry that the kernel has
    /// not taken yet.
    Full,
    /// The enter call reported failure, or more entries than it was given.
    Enter,
    /// Every slot of the completion ring holds an entry that was not drained
    /// yet.
    Overflow,
}

/// The counters of one ring, as read from its mapped region.
#[derive(Clone, Copy, Debug, PartialEq, Eq)]
pub struct RingIndices {
    pub head: u32,
    pub tail: u32,
    pub ring_mask: u32,
    pub ring_entries: u32,
}

/// The submission ring as both sides see it.
pub struct SubmissionRingView {
    /// Position up to which the kernel has taken entries.
    pub head: u32,
    /// Position up to which the process has published entries.
    pub tail: u32,
    pub mask: u32,
    pub entries: u32,
    /// For each published slot, the slot of the entry array that it names.
    pub array: Seq<u32>,
    /// The array of submission entries.
    pub sqes: Seq<io_uring_sqe>,
}

impl SubmissionRingView {
    /// The number of entries published and not yet taken by the kernel.
    pub open spec fn len(self) -> int {
        distance(self.head, self.tail)
    }

    pub open spec fn is_full(self) -> bool {
        self.len() == self.entries
    }

    /// The slot of the `i`-th oldest entry that the kernel has not taken.
    pub open spec fn slot_at(self, i: int) -> int {
        slot(advance(self.head, i), self.entries)
    }

    /// The entries that the kernel has not taken yet, oldest first.
    pub open spec fn queued(self) -> Seq<io_uring_sqe> {
        Seq::new(self.len() as nat, |i: int| self.sqes[self.array[self.slot_at(i)] as int])
    }

    pub open spec fn wf(self) -> bool {
        &&& is_power_of_two(self.entries)
        &&& self.mask == self.entries - 1
        &&& self.array.len() == self.entries
        &&& self.sqes.len() == self.entries
        &&& self.len() <= self.entries
        &&& forall|i: int|
            0 <= i < self.len() ==> self.array[#[trigger] self.slot_at(i)] == self.slot_at(i)
    }

    /// A ring of `entries` slots whose counters both stand at `start`, with
    /// nothing written to it yet.
    pub open spec fn fresh(entries: u32, start: u32) -> SubmissionRingView {
        SubmissionRingView {
            head: start,
            tail: start,
            mask: (entries - 1) as u32,
            entries,
            array: Seq::new(entries as nat, |i: int| 0u32),
            sqes: Seq::new(entries as nat, |i: int| io_uring_sqe::zeroed()),
        }
    }

    /// The slot that the next entry goes to.
    pub open spec fn next_slot(self) -> u32 {
        slot(self.tail, self.entries) as u32
    }

    /// The ring after the next slot has been allocated: the indirection
    /// array names the slot itself, and the tail has moved past it.
    pub open spec fn next(self) -> SubmissionRingView {
        SubmissionRingView {
            tail: advance(self.tail, 1),
            array: self.array.update(self.next_slot() as int, self.next_slot()),
            ..self
        }
    }

    /// The ring after `sqe` has been published in the next slot.
    pub open spec fn push(self, sqe: io_uring_sqe) -> SubmissionRingView {
        SubmissionRingView {
            sqes: self.sqes.update(self.next_slot() as int, sqe),
            ..self.next()
        }
    }

    /// The ring after the kernel has taken the `n` oldest entries.
    pub open spec fn consume(self, n: int) -> SubmissionRingView {
        SubmissionRingView { head: advance(self.head, n), ..self }
    }
}

/// Allocating a slot in a ring that is not full keeps the ring well formed
/// and leaves every entry that the kernel has not taken where it was.
pub proof fn lemma_next(v: SubmissionRingView)
    requires
        v.wf(),
        !v.is_full(),
    ensures
        v.next().wf(),
        v.next().len() == v.len() + 1,
        0 <= v.next_slot() < v.entries,
        v.next().slot_at(v.len()) == v.next_slot(),
        forall|i: int| 0 <= i < v.len() ==> #[trigger] v.slot_at(i) != v.next_slot(),
{
    lemma_mask_is_slot(v.tail, v.entries);
    lemma_distance_range(v.head, v.tail);
    lemma_distance_grows(v.head, v.tail, 1);
    lemma_advance_distance(v.head, v.tail);
    let w = v.next();
    assert forall|i: int| 0 <= i < w.len() implies w.array[#[trigger] w.slot_at(i)] == w.slot_at(
        i,
    ) by {
        lemma_mask_is_slot(advance(v.head, i), v.entries);
        if i < v.len() {
            assert(v.array[v.slot_at(i)] == v.slot_at(i));
        }
    }
    assert forall|i: int| 0 <= i < v.len() implies #[trigger] v.slot_at(i) != v.next_slot() by {
        lemma_slots_distinct(v.head, i, v.len(), v.entries);
    }
}

/// Publishing an entry in a ring that is not full appends it to the entries
/// that the kernel has not taken, and disturbs none of them.
pub proof fn lemma_push(v: SubmissionRingView, sqe: io_uring_sqe)
    requires
        v.wf(),
        !v.is_full(),
    ensures
        v.push(sqe).wf(),
        v.push(sqe).len() == v.len() + 1,
        v.push(sqe).queued() == v.queued().push(sqe),
{
    lemma_next(v);
    let x = v.next();
    let w = v.push(sqe);
    lemma_distance_range(v.head, v.tail);
    lemma_distance_range(w.head, w.tail);
    assert forall|i: int| 0 <= i < w.len() implies 0 <= #[trigger] w.slot_at(i) < w.entries by {
        lemma_mask_is_slot(advance(v.head, i), v.entries);
    }
    assert forall|i: int| 0 <= i < w.len() implies w.array[#[trigger] w.slot_at(i)] == w.slot_at(
        i,
    ) by {
        assert(x.array[x.slot_at(i)] == x.slot_at(i));
    }
    assert forall|i: int| 0 <= i < w.len() implies w.queued()[i] == v.queued().push(sqe)[i] by {
        lemma_mask_is_slot(advance(v.head, i), v.entries);
        assert(x.array[x.slot_at(i)] == x.slot_at(i));
        if i < v.len() {
            assert(v.slot_at(i) != v.next_slot());
            assert(v.array[v.slot_at(i)] == v.slot_at(i));
        }
    }
    assert(w.queued() =~= v.queued().push(sqe));
}

/// A ring with nothing written to it is well formed and holds no entry.
pub proof fn lemma_fresh(entries: u32, start: u32)
    requires
        is_power_of_two(entries),
    ensures
        SubmissionRingView::fresh(entries, start).wf(),
        SubmissionRingView::fresh(entries, start).len() == 0,
        SubmissionRingView::fresh(entries, start).queued() == Seq::<io_uring_sqe>::empty(),
{
    lemma_distance_range(start, start);
    lemma_mask_is_slot(start, entries);
    assert(SubmissionRingView::fresh(entries, start).queued() =~= Seq::<io_uring_sqe>::empty());
}

/// When the kernel takes the `n` oldest entries, the rest stay queued in
/// their order.
pub proof fn lemma_consume(v: SubmissionRingView, n: int)
    requires
        v.wf(),
        0 <= n <= v.len(),
    ensures
        v.consume(n).wf(),
        v.consume(n).len() == v.len() - n,
        v.consume(n).queued() == v.queued().skip(n),
{
    let w = v.consume(n);
    lemma_distance_rest(v.head, v.tail, n);
    assert forall|i: int| 0 <= i < w.len() implies #[trigger] w.slot_at(i) == v.slot_at(n + i) by {
        lemma_advance_twice(v.head, n, i);
    }
    assert forall|i: int| 0 <= i < w.len() implies w.array[#[trigger] w.slot_at(i)] == w.slot_at(
        i,
    ) by {
        assert(v.array[v.slot_at(n + i)] == v.slot_at(n + i));
    }
    assert forall|i: int| 0 <= i < w.len() implies w.queued()[i] == v.queued().skip(n)[i] by {
        assert(w.slot_at(i) == v.slot_at(n + i));
    }
    assert(w.queued() =~= v.queued().skip(n));
}

/// A vector of `n` copies of `value`.
fn filled<T: Copy>(n: u32, value: T) -> (v: Vec<T>)
    ensures
        v@ == Seq::new(n as nat, |i: int| value),
{
    let mut v: Vec<T> = Vec::new();
    let mut i: u32 = 0;
    while i < n
        invariant
            i <= n,
            v@ == Seq::new(i as nat, |j: int| value),
        decreases n - i,
    {
        v.push(value);
        i += 1;
        assert(v@ =~= Seq::new(i as nat, |j: int| value));
    }
    v
}

/// The producer's side of the submission ring.
pub struct SubmissionRing {
    head: u32,
    tail: u32,
    mask: u32,
    entries: u32,
    array: Vec<u32>,
    sqes: Vec<io_uring_sqe>,
}

impl View for SubmissionRing {
    type V = SubmissionRingView;

    closed spec fn view(&self) -> SubmissionRingView {
        SubmissionRingView {
            head: self.head,
            tail: self.tail,
            mask: self.mask,
            entries: self.entries,
            array: self.array@,
            sqes: self.sqes@,
        }
    }
}

impl SubmissionRing {
    /// Whether counters read from a ring of `entries` slots describe an
    /// empty ring of that size.
    pub open spec fn accepts(entries: u32, seen: RingIndices) -> bool {
        &&& is_power_of_two(entries)
        &&& seen.ring_entries == entries
        &&& seen.ring_mask == entries - 1
        &&& seen.head == seen.tail
    }

    /// The view of a submission ring of `entries` slots, of which `seen`
    /// was read right after it was mapped.
    pub fn new(entries: u32, seen: &RingIndices) -> (r: Result<SubmissionRing, RingError>)
        ensures
            Self::accepts(entries, *seen) ==> {
                &&& r is Ok
                &&& r->Ok_0@ == SubmissionRingView::fresh(entries, seen.tail)
                &&& r->Ok_0@.wf()
            },
            !Self::accepts(entries, *seen) ==> r is Err && r->Err_0 == RingError::Geometry,
    {
        if !power_of_two(entries) || seen.ring_entries != entries || seen.ring_mask != entries - 1
            || seen.head != seen.tail {
            return Err(RingError::Geometry);
        }
        let ring = SubmissionRing {
            head: seen.head,
            tail: seen.tail,
            mask: seen.ring_mask,
            entries,
            array: filled(entries, 0u32),
            sqes: filled(entries, io_uring_sqe::default()),
        };
        proof {
            lemma_fresh(entries, seen.tail);
            let fresh = SubmissionRingView::fresh(entries, seen.tail);
            assert(ring@.array =~= fresh.array);
            assert(ring@.sqes =~= fresh.sqes);
        }
        Ok(ring)
    }

    /// Allocates the slot for the next entry: names it in the indirection
    /// array and moves the tail past it. Returns the slot, for the caller to
    /// fill. A full ring is left as it is.
    pub fn next(&mut self) -> (r: Result<u32, RingError>)
        requires
            old(self)@.wf(),
        ensures
            final(self)@.wf(),
            old(self)@.is_full() ==> {
                &&& r == Err::<u32, RingError>(RingError::Full)
                &&& final(self)@ == old(self)@
            },
            !old(self)@.is_full() ==> {
                &&& r == Ok::<u32, RingError>(old(self)@.next_slot())
                &&& final(self)@ == old(self)@.next()
            },
    {
        let tail: u32 = self.tail;
        if gap(self.head, tail) == self.entries {
            return Err(RingError::Full);
        }
        proof {
            lemma_next(self@);
        }
        let index: u32 = masked(tail, self.mask);
        self.array.set(index as usize, index);
        let advanced: u32 = step(tail);
        if self.tail != advanced {
            self.tail = advanced;
        }
        Ok(index)
    }

    /// Publishes `sqe` in the next slot and returns the slot. The entries
    /// that the kernel has not taken stay as they are, and `sqe` follows
    /// them. A full ring is left as it is.
    pub fn push(&mut self, sqe: io_uring_sqe) -> (r: Result<u32, RingError>)
        requires
            old(self)@.wf(),
        ensures
            final(self)@.wf(),
            old(self)@.is_full() ==> {
                &&& r == Err::<u32, RingError>(RingError::Full)
                &&& final(self)@ == old(self)@
            },
            !old(self)@.is_full() ==> {
                &&& r == Ok::<u32, RingError>(old(self)@.next_slot())
                &&& final(self)@ == old(self)@.push(sqe)
                &&& final(self)@.queued() == old(self)@.queued().push(sqe)
            },
    {
        proof {
            if !self@.is_full() {
                lemma_next(self@);
                lemma_push(self@, sqe);
            }
        }
        match self.next() {
            Ok(index) => {
                self.sqes.set(index as usize, sqe);
                Ok(index)
            },
            Err(e) => Err(e),
        }
    }

    /// Position up to which the kernel has taken entries.
    pub fn head(&self) -> (head: u32)
        ensures
            head == self@.head,
    {
        self.head
    }

    /// Position up to which entries are published.
    pub fn tail(&self) -> (tail: u32)
        ensures
            tail == self@.tail,
    {
        self.tail
    }

    pub fn mask(&self) -> (mask: u32)
        ensures
            mask == self@.mask,
    {
        self.mask
    }

    /// The number of slots.
    pub fn entries(&self) -> (entries: u32)
        ensures
            entries == self@.entries,
    {
        self.entries
    }

    /// The number of entries published and not yet taken by the kernel.
    pub fn len(&self) -> (len: u32)
        ensures
            len == self@.len(),
    {
        gap(self.head, self.tail)
    }

    /// The submission entry in slot `index`, if there is such a slot.
    pub fn entry(&self, index: u32) -> (sqe: Option<io_uring_sqe>)
        requires
            self@.wf(),
        ensures
            sqe == if index < self@.entries {
                Some(self@.sqes[index as int])
            } else {
                None
            },
    {
        if index < self.entries {
            Some(self.sqes[index as usize])
        } else {
            None
        }
    }

    /// The slot of the entry array that slot `index` of the indirection
    /// array names, if there is such a slot.
    pub fn indirection(&self, index: u32) -> (named: Option<u32>)
        requires
            self@.wf(),
        ensures
            named == if index < self@.entries {
                Some(self@.array[index as int])
            } else {
                None
            },
    {
        if index < self.entries {
            Some(self.array[index as usize])
        } else {
            None
        }
    }

    /// Records that the kernel has taken the `n` oldest entries.
    fn consume(&mut self, n: u32)
        requires
            old(self)@.wf(),
            n <= old(self)@.len(),
        ensures
            final(self)@.wf(),
            final(self)@ == old(self)@.consume(n as int),
            final(self)@.len() == old(self)@.len() - n,
            final(self)@.queued() == old(self)@.queued().skip(n as int),
    {
        proof {
            lemma_consume(self@, n as int);
        }
        self.head = steps(self.head, n);
    }
}

/// The completion ring as both sides see it.
pub struct CompletionRingView {
    /// Position up to which the process has drained entries.
    pub head: u32,
    /// Position up to which the kernel has published entries.
    pub tail: u32,
    pub mask: u32,
    pub entries: u32,
    /// The array of completion entries.
    pub cqes: Seq<io_uring_cqe>,
}

impl CompletionRingView {
    /// The number of entries published and not yet drained.
    pub open spec fn len(self) -> int {
        distance(self.head, self.tail)
    }

    pub open spec fn is_full(self) -> bool {
        self.len() == self.entries
    }

    /// The slot of the `i`-th oldest entry that was not drained.
    pub open spec fn slot_at(self, i: int) -> int {
        slot(advance(self.head, i), self.entries)
    }

    /// The entries that were not drained yet, oldest first.
    pub open spec fn available(self) -> Seq<io_uring_cqe> {
        Seq::new(self.len() as nat, |i: int| self.cqes[self.slot_at(i)])
    }

    pub open spec fn wf(self) -> bool {
        &&& is_power_of_two(self.entries)
        &&& self.mask == self.entries - 1
        &&& self.cqes.len() == self.entries
        &&& self.len() <= self.entries
    }

    /// A ring of `entries` slots whose counters both stand at `start`, with
    /// nothing written to it yet.
    pub open spec fn fresh(entries: u32, start: u32) -> CompletionRingView {
        CompletionRingView {
            head: start,
            tail: start,
            mask: (entries - 1) as u32,
            entries,
            cqes: Seq::new(
                entries as nat,
                |i: int| (io_uring_cqe { user_data: 0, res: 0, flags: 0 }),
            ),
        }
    }

    /// The slot that the kernel publishes its next entry in.
    pub open spec fn next_slot(self) -> u32 {
        slot(self.tail, self.entries) as u32
    }

    /// The ring after the kernel has published `cqe`.
    pub open spec fn receive(self, cqe: io_uring_cqe) -> CompletionRingView {
        CompletionRingView {
            tail: advance(self.tail, 1),
            cqes: self.cqes.update(self.next_slot() as int, cqe),
            ..self
        }
    }

    /// The ring after the `n` oldest entries have been drained.
    pub open spec fn release(self, n: int) -> CompletionRingView {
        CompletionRingView { head: advance(self.head, n), ..self }
    }

    /// The ring after every entry has been drained.
    pub open spec fn drained(self) -> CompletionRingView {
        CompletionRingView { head: self.tail, ..self }
    }
}

/// A completion ring with nothing written to it is well formed and holds no
/// entry.
pub proof fn lemma_fresh_completions(entries: u32, start: u32)
    requires
        is_power_of_two(entries),
    ensures
        CompletionRingView::fresh(entries, start).wf(),
        CompletionRingView::fresh(entries, start).len() == 0,
        CompletionRingView::fresh(entries, start).available() == Seq::<io_uring_cqe>::empty(),
{
    lemma_distance_range(start, start);
    lemma_mask_is_slot(start, entries);
    assert(CompletionRingView::fresh(entries, start).available() =~= Seq::<
        io_uring_cqe,
    >::empty());
}

/// An entry that the kernel publishes in a ring that is not full follows
/// the entries that were not drained, and disturbs none of them.
pub proof fn lemma_receive(v: CompletionRingView, cqe: io_uring_cqe)
    requires
        v.wf(),
        !v.is_full(),
    ensures
        v.receive(cqe).wf(),
        v.receive(cqe).len() == v.len() + 1,
        0 <= v.next_slot() < v.entries,
        v.receive(cqe).available() == v.available().push(cqe),
{
    lemma_mask_is_slot(v.tail, v.entries);
    lemma_distance_range(v.head, v.tail);
    lemma_distance_grows(v.head, v.tail, 1);
    lemma_advance_distance(v.head, v.tail);
    let w = v.receive(cqe);
    assert forall|i: int| 0 <= i < w.len() implies w.available()[i] == v.available().push(cqe)[i] by {
        lemma_mask_is_slot(advance(v.head, i), v.entries);
        if i < v.len() {
            lemma_slots_distinct(v.head, i, v.len(), v.entries);
        }
    }
    assert(w.available() =~= v.available().push(cqe));
}

/// Draining the `n` oldest entries leaves the rest in their order.
pub proof fn lemma_release(v: CompletionRingView, n: int)
    requires
        v.wf(),
        0 <= n <= v.len(),
    ensures
        v.release(n).wf(),
        v.release(n).len() == v.len() - n,
        v.release(n).available() == v.available().skip(n),
        n == v.len() ==> v.release(n) == v.drained(),
{
    let w = v.release(n);
    lemma_distance_range(v.head, v.tail);
    lemma_distance_rest(v.head, v.tail, n);
    lemma_advance_distance(v.head, v.tail);
    assert forall|i: int| 0 <= i < w.len() implies w.available()[i] == v.available().skip(n)[i] by {
        lemma_advance_twice(v.head, n, i);
    }
    assert(w.available() =~= v.available().skip(n));
}

/// The consumer's side of the completion ring.
pub struct CompletionRing {
    head: u32,
    tail: u32,
    mask: u32,
    entries: u32,
    cqes: Vec<io_uring_cqe>,
}

impl View for CompletionRing {
    type V = CompletionRingView;

    closed spec fn view(&self) -> CompletionRingView {
        CompletionRingView {
            head: self.head,
            tail: self.tail,
            mask: self.mask,
            entries: self.entries,
            cqes: self.cqes@,
        }
    }
}

impl CompletionRing {
    /// Whether counters read from a ring of `entries` slots describe an
    /// empty ring of that size.
    pub open spec fn accepts(entries: u32, seen: RingIndices) -> bool {
        &&& is_power_of_two(entries)
        &&& seen.ring_entries == entries
        &&& seen.ring_mask == entries - 1
        &&& seen.head == seen.tail
    }

    /// The view of a completion ring of `entries` slots, of which `seen`
    /// was read right after it was mapped.
    pub fn new(entries: u32, seen: &RingIndices) -> (r: Result<CompletionRing, RingError>)
        ensures
            Self::accepts(entries, *seen) ==> {
                &&& r is Ok
                &&& r->Ok_0@ == CompletionRingView::fresh(entries, seen.tail)
                &&& r->Ok_0@.wf()
            },
            !Self::accepts(entries, *seen) ==> r is Err && r->Err_0 == RingError::Geometry,
    {
        if !power_of_two(entries) || seen.ring_entries != entries || seen.ring_mask != entries - 1
            || seen.head != seen.tail {
            return Err(RingError::Geometry);
        }
        let ring = CompletionRing {
            head: seen.head,
            tail: seen.tail,
            mask: seen.ring_mask,
            entries,
            cqes: filled(entries, io_uring_cqe { user_data: 0, res: 0, flags: 0 }),
        };
        proof {
            lemma_fresh_completions(entries, seen.tail);
            assert(ring@.cqes =~= CompletionRingView::fresh(entries, seen.tail).cqes);
        }
        Ok(ring)
    }

    /// Takes in an entry that the kernel has published. A full ring is left
    /// as it is.
    pub fn receive(&mut self, cqe: io_uring_cqe) -> (r: Result<(), RingError>)
        requires
            old(self)@.wf(),
        ensures
            final(self)@.wf(),
            old(self)@.is_full() ==> {
                &&& r == Err::<(), RingError>(RingError::Overflow)
                &&& final(self)@ == old(self)@
            },
            !old(self)@.is_full() ==> {
                &&& r == Ok::<(), RingError>(())
                &&& final(self)@ == old(self)@.receive(cqe)
                &&& final(self)@.available() == old(self)@.available().push(cqe)
            },
    {
        let tail: u32 = self.tail;
        if gap(self.head, tail) == self.entries {
            return Err(RingError::Overflow);
        }
        proof {
            lemma_receive(self@, cqe);
        }
        let index: u32 = masked(tail, self.mask);
        self.cqes.set(index as usize, cqe);
        self.tail = step(tail);
        Ok(())
    }

    /// Position up to which entries were drained.
    pub fn head(&self) -> (head: u32)
        ensures
            head == self@.head,
    {
        self.head
    }

    /// Position up to which the kernel's entries were taken in.
    pub fn tail(&self) -> (tail: u32)
        ensures
            tail == self@.tail,
    {
        self.tail
    }

    pub fn mask(&self) -> (mask: u32)
        ensures
            mask == self@.mask,
    {
        self.mask
    }

    /// The number of slots.
    pub fn entries(&self) -> (entries: u32)
        ensures
            entries == self@.entries,
    {
        self.entries
    }

    /// The number of entries taken in and not yet drained.
    pub fn len(&self) -> (len: u32)
        ensures
            len == self@.len(),
    {
        gap(self.head, self.tail)
    }

    /// The slot in which the kernel publishes its next entry.
    pub fn next_slot(&self) -> (index: u32)
        requires
            self@.wf(),
        ensures
            index == self@.next_slot(),
            index < self@.entries,
    {
        masked(self.tail, self.mask)
    }

    /// Drains the oldest entry, if there is one.
    pub fn pop(&mut self) -> (r: Option<io_uring_cqe>)
        requires
            old(self)@.wf(),
        ensures
            final(self)@.wf(),
            old(self)@.len() == 0 ==> r.is_none() && final(self)@ == old(self)@,
            old(self)@.len() != 0 ==> {
                &&& r == Some(old(self)@.available()[0])
                &&& final(self)@ == old(self)@.release(1)
                &&& final(self)@.available() == old(self)@.available().skip(1)
            },
    {
        proof {
            lemma_distance_range(self.head, self.tail);
        }
        if self.head == self.tail {
            return None;
        }
        proof {
            lemma_release(self@, 1);
            lemma_advance_zero(self.head);
        }
        let index: u32 = masked(self.head, self.mask);
        let cqe: io_uring_cqe = self.cqes[index as usize];
        self.head = step(self.head);
        Some(cqe)
    }

    /// Drains every entry and returns them, oldest first.
    pub fn drain(&mut self) -> (done: Vec<io_uring_cqe>)
        requires
            old(self)@.wf(),
        ensures
            final(self)@.wf(),
            done@ == old(self)@.available(),
            final(self)@ == old(self)@.drained(),
            final(self)@.len() == 0,
    {
        let mut done: Vec<io_uring_cqe> = Vec::new();
        proof {
            lemma_distance_range(self.head, self.tail);
            lemma_release(self@, 0);
            lemma_advance_zero(self.head);
            assert(done@ =~= self@.available().take(0));
        }
        while self.head != self.tail
            invariant
                old(self)@.wf(),
                self@.wf(),
                0 <= done@.len() <= old(self)@.len(),
                self@ == old(self)@.release(done@.len() as int),
                self@.len() == old(self)@.len() - done@.len(),
                done@ == old(self)@.available().take(done@.len() as int),
            decreases self@.len(),
        {
            proof {
                lemma_distance_range(self.head, self.tail);
                lemma_release(old(self)@, done@.len() as int);
                lemma_release(old(self)@, done@.len() as int + 1);
                lemma_release(self@, 1);
                lemma_advance_twice(old(self)@.head, done@.len() as int, 1);
                lemma_advance_zero(self.head);
            }
            let ghost before = done@;
            let index: u32 = masked(self.head, self.mask);
            done.push(self.cqes[index as usize]);
            self.head = step(self.head);
            proof {
                let all = old(self)@.available();
                assert(old(self)@.release(before.len() as int).available()[0] == all[before.len() as int]);
                assert(done@ =~= all.take(done@.len() as int));
            }
        }
        proof {
            lemma_distance_range(self.head, self.tail);
            lemma_release(old(self)@, old(self)@.len());
            assert(done@ =~= old(self)@.available());
        }
        done
    }
}

/// The lengths of the regions to map for a ring, in bytes.
#[derive(Clone, Copy, Debug, PartialEq, Eq)]
pub struct MemoryPlan {
    /// Length of the region that holds the submission ring.
    pub sq_ring_size: u64,
    /// Length of the region that holds the completion ring.
    pub cq_ring_size: u64,
    /// Length of the region that holds the submission entries.
    pub sqe_array_size: u64,
    /// Whether the completion ring lies in the region of the submission
    /// ring, so that no region of its own is mapped for it.
    pub single_map: bool,
}

impl MemoryPlan {
    /// The plan for the rings that `p` describes. Each ring's region ends
    /// where its array ends; where one mapping serves both rings, it has
    /// the larger of the two lengths.
    pub open spec fn of(p: io_uring_params) -> MemoryPlan {
        let sq: u64 = (p.sq_off.array + INDEX_BYTES * p.sq_entries) as u64;
        let cq: u64 = (p.cq_off.cqes + CQE_BYTES * p.cq_entries) as u64;
        let shared: u64 = if cq > sq {
            cq
        } else {
            sq
        };
        let single: bool = p.has(Feature::IORING_FEAT_SINGLE_MMAP);
        MemoryPlan {
            sq_ring_size: if single {
                shared
            } else {
                sq
            },
            cq_ring_size: if single {
                shared
            } else {
                cq
            },
            sqe_array_size: (SQE_BYTES * p.sq_entries) as u64,
            single_map: single,
        }
    }

    /// Every part of both rings lies inside the region planned for it.
    pub open spec fn holds(self, p: io_uring_params) -> bool {
        &&& p.sq_off.fits(p.sq_entries, self.sq_ring_size)
        &&& p.cq_off.fits(p.cq_entries, self.cq_ring_size)
    }
}

/// The arguments of one enter call.
#[derive(Clone, Copy, Debug, PartialEq, Eq)]
pub struct EnterArgs {
    pub fd: i32,
    pub to_submit: u32,
    pub min_complete: u32,
    pub flags: u32,
}

/// One operation, ready to be enqueued.
#[derive(Debug, PartialEq, Eq)]
pub struct RingOp {
    sqe: io_uring_sqe,
}

impl View for RingOp {
    type V = io_uring_sqe;

    closed spec fn view(&self) -> io_uring_sqe {
        self.sqe
    }
}

impl RingOp {
    /// A builder in which every field is zero.
    pub fn builder() -> (b: RingOpBuilder)
        ensures
            b@ == io_uring_sqe::zeroed(),
    {
        RingOpBuilder::default()
    }

    /// A builder for a read, in which every other field is zero.
    pub fn read_builder() -> (b: RingOpBuilder)
        ensures
            b@ == (io_uring_sqe {
                opcode: Opcode::IORING_OP_READ.code(),
                ..io_uring_sqe::zeroed()
            }),
    {
        RingOp::builder_with_op(Opcode::IORING_OP_READ)
    }

    /// A builder for an operation of kind `opcode`, in which every other
    /// field is zero.
    pub fn builder_with_op(opcode: Opcode) -> (b: RingOpBuilder)
        ensures
            b@ == (io_uring_sqe { opcode: opcode.code(), ..io_uring_sqe::zeroed() }),
    {
        RingOpBuilder::default().opcode(opcode)
    }

    /// The submission entry that describes this operation.
    pub fn entry(&self) -> (sqe: io_uring_sqe)
        ensures
            sqe == self@,
    {
        self.sqe
    }
}

/// Collects the fields of one operation, and is used up when the operation
/// is built.
#[derive(Debug)]
pub struct RingOpBuilder {
    sqe: io_uring_sqe,
}

impl View for RingOpBuilder {
    type V = io_uring_sqe;

    closed spec fn view(&self) -> io_uring_sqe {
        self.sqe
    }
}

impl Default for RingOpBuilder {
    fn default() -> (b: RingOpBuilder)
        ensures
            b@ == io_uring_sqe::zeroed(),
    {
        RingOpBuilder { sqe: io_uring_sqe::default() }
    }
}

impl RingOpBuilder {
    /// Sets the file that the operation works on.
    pub fn fd(self, fd: i32) -> (b: RingOpBuilder)
        ensures
            b@ == (io_uring_sqe { fd, ..self@ }),
    {
        let mut b = self;
        b.sqe.fd = fd;
        b
    }

    /// Sets the flags of the entry to the low eight bits of `flags`.
    pub fn flags(self, flags: u32) -> (b: RingOpBuilder)
        ensures
            b@ == (io_uring_sqe { flags: (flags % 0x100) as u8, ..self@ }),
    {
        let mut b = self;
        b.sqe.flags = (flags % 0x100) as u8;
        b
    }

    /// Sets the kind of operation.
    pub fn opcode(self, opcode: Opcode) -> (b: RingOpBuilder)
        ensures
            b@ == (io_uring_sqe { opcode: opcode.code(), ..self@ }),
    {
        let mut b = self;
        b.sqe.opcode = opcode.code();
        b
    }

    /// Sets the address of the buffer.
    pub fn addr(self, addr: usize) -> (b: RingOpBuilder)
        ensures
            b@ == (io_uring_sqe { addr: addr as u64, ..self@ }),
    {
        let mut b = self;
        b.sqe.addr = addr as u64;
        b
    }

    /// Sets the length of the buffer to the low 32 bits of `len`.
    pub fn len(self, len: usize) -> (b: RingOpBuilder)
        ensures
            b@ == (io_uring_sqe { len: (len as u64 % 0x1_0000_0000) as u32, ..self@ }),
    {
        let mut b = self;
        b.sqe.len = (len as u64 % 0x1_0000_0000) as u32;
        b
    }

    /// Sets the byte offset in the file.
    pub fn off(self, off: usize) -> (b: RingOpBuilder)
        ensures
            b@ == (io_uring_sqe { off: off as u64, ..self@ }),
    {
        let mut b = self;
        b.sqe.off = off as u64;
        b
    }

    /// Sets the correlation tag, which the completion hands back.
    pub fn user_data(self, user_data: u64) -> (b: RingOpBuilder)
        ensures
            b@ == (io_uring_sqe { user_data, ..self@ }),
    {
        let mut b = self;
        b.sqe.user_data = user_data;
        b
    }

    /// The operation with the fields collected so far.
    pub fn build(self) -> (op: RingOp)
        ensures
            op@ == self@,
    {
        RingOp { sqe: self.sqe }
    }
}

/// The ring as a whole, as both sides see it.
pub struct RingView {
    /// The kernel handle.
    pub fd: i32,
    /// The number of entries enqueued since the last enter call.
    pub pending: u32,
    pub sq: SubmissionRingView,
    pub cq: CompletionRingView,
}

impl RingView {
    pub open spec fn wf(self) -> bool {
        &&& self.fd >= 0
        &&& self.sq.wf()
        &&& self.cq.wf()
        &&& self.pending <= self.sq.len()
    }

    /// The ring after `sqe` has been enqueued.
    pub open spec fn add(self, sqe: io_uring_sqe) -> RingView {
        RingView { pending: (self.pending + 1) as u32, sq: self.sq.push(sqe), ..self }
    }

    /// Whether `res` can be what the enter call returns for this ring: a
    /// count of entries, none of them beyond those it was given.
    pub open spec fn accepted(self, res: i64) -> bool {
        0 <= res <= self.pending
    }

    /// The ring after an enter call that returned `res`.
    pub open spec fn submit(self, res: i64) -> RingView {
        RingView {
            pending: 0,
            sq: if self.accepted(res) {
                self.sq.consume(res as int)
            } else {
                self.sq
            },
            ..self
        }
    }

    /// The ring after the kernel has published `cqe`.
    pub open spec fn receive(self, cqe: io_uring_cqe) -> RingView {
        RingView { cq: self.cq.receive(cqe), ..self }
    }

    /// The ring after every completion has been drained.
    pub open spec fn wait(self) -> RingView {
        RingView { cq: self.cq.drained(), ..self }
    }
}

/// The kernel handle of a ring, the two rings, and the count of entries
/// that the kernel has not been told of yet.
pub struct Ring {
    fd: i32,
    submission_ring: SubmissionRing,
    completion_ring: CompletionRing,
    pending: u32,
}

impl View for Ring {
    type V = RingView;

    closed spec fn view(&self) -> RingView {
        RingView {
            fd: self.fd,
            pending: self.pending,
            sq: self.submission_ring@,
            cq: self.completion_ring@,
        }
    }
}

impl Ring {
    /// What `mem_map` answers for the handle `fd` and the parameters `p`.
    pub open spec fn mapping(fd: i32, p: io_uring_params) -> Result<MemoryPlan, RingError> {
        if fd < 0 {
            Err(RingError::Setup)
        } else if !MemoryPlan::of(p).holds(p) {
            Err(RingError::Layout)
        } else {
            Ok(MemoryPlan::of(p))
        }
    }

    /// What `new` answers: the ring that it makes, or why it makes none.
    pub open spec fn creation(
        entries: u32,
        fd: i32,
        p: io_uring_params,
        sq_seen: RingIndices,
        cq_seen: RingIndices,
    ) -> Result<RingView, RingError> {
        if Self::mapping(fd, p) is Err {
            Err(Self::mapping(fd, p)->Err_0)
        } else if entries > p.sq_entries || !SubmissionRing::accepts(p.sq_entries, sq_seen)
            || !CompletionRing::accepts(p.cq_entries, cq_seen) {
            Err(RingError::Geometry)
        } else {
            Ok(
                RingView {
                    fd,
                    pending: 0,
                    sq: SubmissionRingView::fresh(p.sq_entries, sq_seen.tail),
                    cq: CompletionRingView::fresh(p.cq_entries, cq_seen.tail),
                },
            )
        }
    }

    /// The ring that the setup call made for a request of `entries` slots:
    /// `fd` is what the call returned, `p` the parameters that it filled in,
    /// and `sq_seen` and `cq_seen` the counters read from the two mapped
    /// rings. The ring is refused where there is no handle, where a part of
    /// a ring would lie outside its region, and where the rings are not
    /// empty rings of the sizes in `p`, the submission ring of at least
    /// `entries` slots.
    pub fn new(
        entries: u32,
        fd: i32,
        p: &io_uring_params,
        sq_seen: &RingIndices,
        cq_seen: &RingIndices,
    ) -> (r: Result<Ring, RingError>)
        ensures
            match Self::creation(entries, fd, *p, *sq_seen, *cq_seen) {
                Ok(v) => r is Ok && r->Ok_0@ == v && v.wf(),
                Err(e) => r is Err && r->Err_0 == e,
            },
    {
        match Ring::mem_map(fd, p) {
            Err(e) => {
                return Err(e);
            },
            Ok(_) => {},
        }
        if entries > p.sq_entries {
            return Err(RingError::Geometry);
        }
        let submission_ring = match SubmissionRing::new(p.sq_entries, sq_seen) {
            Ok(ring) => ring,
            Err(e) => {
                return Err(e);
            },
        };
        let completion_ring = match CompletionRing::new(p.cq_entries, cq_seen) {
            Ok(ring) => ring,
            Err(e) => {
                return Err(e);
            },
        };
        proof {
            lemma_fresh(p.sq_entries, sq_seen.tail);
        }
        Ok(Ring { fd, submission_ring, completion_ring, pending: 0 })
    }

    /// Plans the regions to map for the rings that `p` describes, reached
    /// through the handle `fd`. There is no plan without a handle, nor where
    /// a part of a ring would lie outside its region.
    pub fn mem_map(fd: i32, p: &io_uring_params) -> (r: Result<MemoryPlan, RingError>)
        ensures
            r == Self::mapping(fd, *p),
    {
        if fd < 0 {
            return Err(RingError::Setup);
        }
        let mut sq_ring_size: u64 = p.sq_off.array as u64 + INDEX_BYTES * (p.sq_entries as u64);
        let mut cq_ring_size: u64 = p.cq_off.cqes as u64 + CQE_BYTES * (p.cq_entries as u64);
        let sqe_array_size: u64 = SQE_BYTES * (p.sq_entries as u64);
        let is_single_map: bool = p.has(Feature::IORING_FEAT_SINGLE_MMAP);
        if is_single_map {
            if cq_ring_size > sq_ring_size {
                sq_ring_size = cq_ring_size;
            }
            cq_ring_size = sq_ring_size;
        }
        if !p.sq_off.fits(p.sq_entries, sq_ring_size) || !p.cq_off.fits(
            p.cq_entries,
            cq_ring_size,
        ) {
            return Err(RingError::Layout);
        }
        Ok(MemoryPlan { sq_ring_size, cq_ring_size, sqe_array_size, single_map: is_single_map })
    }

    /// The kernel handle.
    pub fn fd(&self) -> (fd: i32)
        ensures
            fd == self@.fd,
    {
        self.fd
    }

    /// The number of entries enqueued since the last enter call.
    pub fn pending(&self) -> (pending: u32)
        ensures
            pending == self@.pending,
    {
        self.pending
    }

    pub fn submission_ring(&self) -> (ring: &SubmissionRing)
        ensures
            ring@ == self@.sq,
    {
        &self.submission_ring
    }

    pub fn completion_ring(&self) -> (ring: &CompletionRing)
        ensures
            ring@ == self@.cq,
    {
        &self.completion_ring
    }

    /// Enqueues `ring_op`: copies its entry into the next slot of the
    /// submission ring and counts it as pending. Returns the slot. A full
    /// ring refuses the operation and is left as it is.
    pub fn add(&mut self, ring_op: RingOp) -> (r: Result<u32, RingError>)
        requires
            old(self)@.wf(),
        ensures
            final(self)@.wf(),
            old(self)@.sq.is_full() ==> {
                &&& r == Err::<u32, RingError>(RingError::Full)
                &&& final(self)@ == old(self)@
            },
            !old(self)@.sq.is_full() ==> {
                &&& r == Ok::<u32, RingError>(old(self)@.sq.next_slot())
                &&& final(self)@ == old(self)@.add(ring_op@)
                &&& final(self)@.sq.queued() == old(self)@.sq.queued().push(ring_op@)
            },
    {
        proof {
            if !self@.sq.is_full() {
                lemma_push(self@.sq, ring_op@);
            }
        }
        match self.submission_ring.push(ring_op.sqe) {
            Ok(index) => {
                self.pending += 1;
                Ok(index)
            },
            Err(e) => Err(e),
        }
    }

    /// The arguments of the enter call that submits what is pending: it
    /// waits for completions, but for no least number of them.
    pub fn enter_args(&self) -> (args: EnterArgs)
        ensures
            args == (EnterArgs {
                fd: self@.fd,
                to_submit: self@.pending,
                min_complete: 0,
                flags: Enter::IORING_ENTER_GETEVENTS.bits(),
            }),
    {
        EnterArgs {
            fd: self.fd,
            to_submit: self.pending,
            min_complete: 0,
            flags: Enter::IORING_ENTER_GETEVENTS.bits(),
        }
    }

    /// Takes in what the enter call returned for `enter_args`. Nothing is
    /// pending afterwards. Where `res` counts entries that the kernel
    /// accepted, the kernel has taken that many from the submission ring,
    /// oldest first, and the count is returned; any other `res` is an
    /// error, and the submission ring keeps its entries.
    pub fn submit(&mut self, res: i64) -> (r: Result<u32, RingError>)
        requires
            old(self)@.wf(),
        ensures
            final(self)@.wf(),
            final(self)@ == old(self)@.submit(res),
            old(self)@.accepted(res) ==> {
                &&& r == Ok::<u32, RingError>(res as u32)
                &&& final(self)@.sq.queued() == old(self)@.sq.queued().skip(res as int)
            },
            !old(self)@.accepted(res) ==> r == Err::<u32, RingError>(RingError::Enter),
    {
        proof {
            lemma_distance_range(self@.sq.head, self@.sq.tail);
        }
        let pending: u32 = self.pending;
        self.pending = 0;
        if res < 0 || res > pending as i64 {
            return Err(RingError::Enter);
        }
        let accepted: u32 = res as u32;
        self.submission_ring.consume(accepted);
        Ok(accepted)
    }

    /// Takes in a completion entry that the kernel has published. A full
    /// completion ring refuses it and is left as it is.
    pub fn receive(&mut self, cqe: io_uring_cqe) -> (r: Result<(), RingError>)
        requires
            old(self)@.wf(),
        ensures
            final(self)@.wf(),
            old(self)@.cq.is_full() ==> {
                &&& r == Err::<(), RingError>(RingError::Overflow)
                &&& final(self)@ == old(self)@
            },
            !old(self)@.cq.is_full() ==> {
                &&& r == Ok::<(), RingError>(())
                &&& final(self)@ == old(self)@.receive(cqe)
                &&& final(self)@.cq.available() == old(self)@.cq.available().push(cqe)
            },
    {
        self.completion_ring.receive(cqe)
    }

    /// Drains the completion ring: walks from its head to its tail, counts
    /// the entries on the way, and moves the head up to the tail. Returns
    /// the count.
    pub fn wait(&mut self) -> (results: u32)
        requires
            old(self)@.wf(),
        ensures
            final(self)@.wf(),
            results == old(self)@.cq.len(),
            final(self)@ == old(self)@.wait(),
            final(self)@.cq.len() == 0,
    {
        let mut results: u32 = 0;
        let mut head: u32 = self.completion_ring.head;
        let mask: u32 = self.completion_ring.mask;
        proof {
            lemma_advance_zero(head);
            lemma_distance_range(head, self.completion_ring.tail);
        }
        while head != self.completion_ring.tail
            invariant
                self@ == old(self)@,
                self@.wf(),
                mask == self@.cq.mask,
                0 <= results <= self@.cq.len(),
                head == advance(self@.cq.head, results as int),
            decreases self@.cq.len() - results,
        {
            proof {
                lemma_release(self@.cq, results as int);
                lemma_distance_range(head, self.completion_ring.tail);
                lemma_advance_twice(self@.cq.head, results as int, 1);
            }
            let _cqe: io_uring_cqe = self.completion_ring.cqes[masked(head, mask) as usize];
            head = step(head);
            results += 1;
        }
        proof {
            lemma_release(self@.cq, results as int);
            lemma_distance_range(head, self.completion_ring.tail);
        }
        self.completion_ring.head = head;
        proof {
            lemma_distance_range(head, head);
        }
        results
    }

    /// Drains the completion ring and returns its entries, oldest first.
    pub fn drain(&mut self) -> (done: Vec<io_uring_cqe>)
        requires
            old(self)@.wf(),
        ensures
            final(self)@.wf(),
            done@ == old(self)@.cq.available(),
            final(self)@ == old(self)@.wait(),
            final(self)@.cq.len() == 0,
    {
        self.completion_ring.drain()
    }
}

} // verus!
