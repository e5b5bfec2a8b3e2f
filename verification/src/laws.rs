//! What holds of a ring over several steps.

use crate::bindings::{io_uring_cqe, io_uring_params, io_uring_sqe};
use crate::index::{
    advance, is_power_of_two, lemma_advance_twice, lemma_advance_zero, lemma_distance_range,
    lemma_mask_is_slot, lemma_slot_advance, lemma_slot_period, slot,
};
use crate::uring::{
    lemma_consume, lemma_fresh, lemma_fresh_completions, lemma_next, lemma_push, lemma_receive,
    lemma_release, Ring, RingIndices, RingView,
};
use vstd::prelude::*;

verus! {

/// The ring after the entries `ops` have been enqueued, in their order.
pub open spec fn add_all(v: RingView, ops: Seq<io_uring_sqe>) -> RingView
    decreases ops.len(),
{
    if ops.len() == 0 {
        v
    } else {
        add_all(v, ops.drop_last()).add(ops.last())
    }
}

/// The ring after the kernel has published the entries `cqes`, in their
/// order.
pub open spec fn receive_all(v: RingView, cqes: Seq<io_uring_cqe>) -> RingView
    decreases cqes.len(),
{
    if cqes.len() == 0 {
        v
    } else {
        receive_all(v, cqes.drop_last()).receive(cqes.last())
    }
}

/// A ring that was created has, in each of its two rings, a power of two of
/// slots and a mask that is one less; both rings are empty, nothing is
/// pending, and the submission ring has at least the slots asked for.
pub proof fn lemma_created(
    entries: u32,
    fd: i32,
    p: io_uring_params,
    sq_seen: RingIndices,
    cq_seen: RingIndices,
)
    requires
        Ring::creation(entries, fd, p, sq_seen, cq_seen) is Ok,
    ensures
        ({
            let v = Ring::creation(entries, fd, p, sq_seen, cq_seen)->Ok_0;
            &&& v.wf()
            &&& is_power_of_two(v.sq.entries)
            &&& is_power_of_two(v.cq.entries)
            &&& v.sq.mask == v.sq.entries - 1
            &&& v.cq.mask == v.cq.entries - 1
            &&& v.sq.entries >= entries
            &&& v.sq.len() == 0
            &&& v.cq.len() == 0
            &&& v.pending == 0
        }),
{
    lemma_fresh(p.sq_entries, sq_seen.tail);
    lemma_fresh_completions(p.cq_entries, cq_seen.tail);
}

/// Creation succeeds for every power of two of slots asked for, when the
/// setup call returned a handle and the kernel's answer is sound: both rings
/// have a power of two of slots, the submission ring as many as were asked
/// for, every part of a ring lies in its region, and the counters read from
/// each ring show its size, the mask one less, and head and tail together.
pub proof fn lemma_creation_succeeds(
    entries: u32,
    fd: i32,
    p: io_uring_params,
    sq_seen: RingIndices,
    cq_seen: RingIndices,
)
    requires
        is_power_of_two(entries),
        fd >= 0,
        p.sq_entries == entries,
        is_power_of_two(p.cq_entries),
        Ring::mapping(fd, p) is Ok,
        sq_seen.ring_entries == p.sq_entries,
        sq_seen.ring_mask == p.sq_entries - 1,
        sq_seen.head == sq_seen.tail,
        cq_seen.ring_entries == p.cq_entries,
        cq_seen.ring_mask == p.cq_entries - 1,
        cq_seen.head == cq_seen.tail,
    ensures
        Ring::creation(entries, fd, p, sq_seen, cq_seen) is Ok,
{
}

/// Enqueuing as many entries as there are free slots succeeds for each of
/// them: the ring stays well formed, every one of them is pending, and the
/// submission ring holds what it held, followed by them in their order.
pub proof fn lemma_add_all(v: RingView, ops: Seq<io_uring_sqe>)
    requires
        v.wf(),
        v.sq.len() + ops.len() <= v.sq.entries,
    ensures
        add_all(v, ops).wf(),
        add_all(v, ops).pending == v.pending + ops.len(),
        add_all(v, ops).sq.entries == v.sq.entries,
        add_all(v, ops).sq.len() == v.sq.len() + ops.len(),
        add_all(v, ops).sq.queued() == v.sq.queued() + ops,
        add_all(v, ops).cq == v.cq,
        add_all(v, ops).fd == v.fd,
    decreases ops.len(),
{
    if ops.len() == 0 {
        assert(v.sq.queued() + ops =~= v.sq.queued());
    } else {
        let before = add_all(v, ops.drop_last());
        lemma_add_all(v, ops.drop_last());
        lemma_push(before.sq, ops.last());
        assert(before.sq.queued().push(ops.last()) =~= v.sq.queued() + ops);
    }
}

/// After `ops` were enqueued with nothing pending before, the count that
/// the enter call reports as accepted is at most their number; the kernel
/// has then taken that many of the queued entries, oldest first, and
/// nothing is pending.
pub proof fn lemma_accepted_at_most_enqueued(v: RingView, ops: Seq<io_uring_sqe>, res: i64)
    requires
        v.wf(),
        v.pending == 0,
        v.sq.len() + ops.len() <= v.sq.entries,
        add_all(v, ops).accepted(res),
    ensures
        0 <= res <= ops.len(),
        add_all(v, ops).submit(res).wf(),
        add_all(v, ops).submit(res).pending == 0,
        add_all(v, ops).submit(res).sq.queued() == (v.sq.queued() + ops).skip(res as int),
{
    lemma_add_all(v, ops);
    lemma_consume(add_all(v, ops).sq, res as int);
}

/// When the kernel publishes as many completions as there are free slots,
/// the completion ring holds what it held, followed by them in their
/// order; draining it then finds every one of them and leaves it empty.
pub proof fn lemma_receive_all(v: RingView, cqes: Seq<io_uring_cqe>)
    requires
        v.wf(),
        v.cq.len() + cqes.len() <= v.cq.entries,
    ensures
        receive_all(v, cqes).wf(),
        receive_all(v, cqes).cq.entries == v.cq.entries,
        receive_all(v, cqes).cq.len() == v.cq.len() + cqes.len(),
        receive_all(v, cqes).cq.available() == v.cq.available() + cqes,
        receive_all(v, cqes).wait().cq.len() == 0,
        receive_all(v, cqes).wait().wf(),
        receive_all(v, cqes).sq == v.sq,
        receive_all(v, cqes).pending == v.pending,
        receive_all(v, cqes).fd == v.fd,
    decreases cqes.len(),
{
    if cqes.len() == 0 {
        assert(v.cq.available() + cqes =~= v.cq.available());
    } else {
        let before = receive_all(v, cqes.drop_last());
        lemma_receive_all(v, cqes.drop_last());
        lemma_receive(before.cq, cqes.last());
        assert(before.cq.available().push(cqes.last()) =~= v.cq.available() + cqes);
    }
    let after = receive_all(v, cqes);
    lemma_distance_range(v.cq.head, v.cq.tail);
    lemma_release(after.cq, after.cq.len());
}

/// One round on an idle ring: `ops` are enqueued, the enter call accepts
/// every one of them, and the kernel publishes one completion for each.
/// Then the submission ring is empty again, and draining finds exactly as
/// many completions as entries were enqueued: the ones that the kernel
/// published, in their order.
pub proof fn lemma_round(v: RingView, ops: Seq<io_uring_sqe>, cqes: Seq<io_uring_cqe>)
    requires
        v.wf(),
        v.pending == 0,
        v.sq.len() == 0,
        v.cq.len() == 0,
        ops.len() <= v.sq.entries,
        cqes.len() == ops.len(),
        cqes.len() <= v.cq.entries,
    ensures
        ({
            let queued = add_all(v, ops);
            let sent = queued.submit(ops.len() as i64);
            let answered = receive_all(sent, cqes);
            &&& queued.accepted(ops.len() as i64)
            &&& sent.wf()
            &&& sent.pending == 0
            &&& sent.sq.len() == 0
            &&& answered.wf()
            &&& answered.cq.len() == ops.len()
            &&& answered.cq.available() == cqes
            &&& answered.wait().wf()
            &&& answered.wait().cq.len() == 0
        }),
{
    let queued = add_all(v, ops);
    let sent = queued.submit(ops.len() as i64);
    lemma_add_all(v, ops);
    lemma_consume(queued.sq, ops.len() as int);
    lemma_distance_range(v.cq.head, v.cq.tail);
    assert(v.cq.available() =~= Seq::<io_uring_cqe>::empty());
    lemma_receive_all(sent, cqes);
    assert(Seq::<io_uring_cqe>::empty() + cqes =~= cqes);
}

/// The ring hands a correlation tag on as it got it: an entry that is
/// enqueued stands last in the submission ring with the tag it was given,
/// and a completion that the kernel publishes stands last in the completion
/// ring with the tag that the kernel wrote. So where the kernel answers an
/// entry with that entry's tag, the completion that is drained carries the
/// tag that was set on the entry.
pub proof fn lemma_tag_kept(v: RingView, sqe: io_uring_sqe, cqe: io_uring_cqe)
    requires
        v.wf(),
        !v.sq.is_full(),
        !v.cq.is_full(),
        cqe.user_data == sqe.user_data,
    ensures
        v.add(sqe).sq.queued().last() == sqe,
        v.add(sqe).receive(cqe).cq.available().last() == cqe,
        v.add(sqe).receive(cqe).cq.available().last().user_data == sqe.user_data,
{
    lemma_push(v.sq, sqe);
    lemma_receive(v.cq, cqe);
}

/// The ring after each of `ops` was enqueued and accepted by an enter call
/// of its own, one after the other.
pub open spec fn one_by_one(v: RingView, ops: Seq<io_uring_sqe>) -> RingView
    decreases ops.len(),
{
    if ops.len() == 0 {
        v
    } else {
        one_by_one(v, ops.drop_last()).add(ops.last()).submit(1)
    }
}

/// Entries that are enqueued and accepted one by one never find the ring
/// full, however many they are. The tail has then moved on by their number,
/// the last of them stands in the slot of the position before the tail, and
/// the indirection array names that slot itself.
pub proof fn lemma_one_by_one(v: RingView, ops: Seq<io_uring_sqe>)
    requires
        v.wf(),
        v.pending == 0,
        v.sq.len() == 0,
    ensures
        one_by_one(v, ops).wf(),
        one_by_one(v, ops).pending == 0,
        one_by_one(v, ops).sq.len() == 0,
        one_by_one(v, ops).sq.entries == v.sq.entries,
        one_by_one(v, ops).sq.tail == advance(v.sq.tail, ops.len() as int),
        one_by_one(v, ops).cq == v.cq,
        ops.len() > 0 ==> ({
            let last = slot(advance(v.sq.tail, ops.len() - 1), v.sq.entries);
            &&& 0 <= last < v.sq.entries
            &&& one_by_one(v, ops).sq.array[last] == last
            &&& one_by_one(v, ops).sq.sqes[last] == ops.last()
        }),
    decreases ops.len(),
{
    if ops.len() == 0 {
        lemma_advance_zero(v.sq.tail);
    } else {
        let before = one_by_one(v, ops.drop_last());
        lemma_one_by_one(v, ops.drop_last());
        lemma_next(before.sq);
        lemma_push(before.sq, ops.last());
        lemma_consume(before.add(ops.last()).sq, 1);
        lemma_advance_twice(v.sq.tail, ops.len() - 1, 1);
        lemma_mask_is_slot(before.sq.tail, v.sq.entries);
        assert(ops.drop_last().len() == ops.len() - 1);
    }
}

/// Of entries that are enqueued and accepted one by one, the one that
/// follows `entries + k` others goes to the slot of the one that follows
/// `k` others, also where the tail has wrapped in between; from a tail of
/// zero that is slot `k % entries`.
pub proof fn lemma_slot_reused(v: RingView, ops: Seq<io_uring_sqe>, k: int)
    requires
        v.wf(),
        v.pending == 0,
        v.sq.len() == 0,
        0 <= k,
        ops.len() == v.sq.entries + k,
    ensures
        !one_by_one(v, ops).sq.is_full(),
        one_by_one(v, ops).sq.next_slot() == one_by_one(v, ops.take(k)).sq.next_slot(),
        v.sq.tail == 0 ==> one_by_one(v, ops).sq.next_slot() == k % (v.sq.entries as int),
{
    lemma_one_by_one(v, ops);
    lemma_one_by_one(v, ops.take(k));
    lemma_slot_period(v.sq.tail, k, v.sq.entries);
    lemma_slot_advance(v.sq.tail, k, v.sq.entries);
    lemma_next(one_by_one(v, ops).sq);
}

} // verus!
