use uring::bindings::{
    io_cqring_offsets, io_sqring_offsets, io_uring_cqe, io_uring_params, io_uring_sqe,
};
use uring::uring::{EnterArgs, MemoryPlan, Ring, RingError, RingIndices, RingOp};

/// What the setup call answers for rings of these sizes.
fn answer(sq_entries: u32, cq_entries: u32, features: u32) -> io_uring_params {
    io_uring_params {
        sq_entries,
        cq_entries,
        flags: 0,
        sq_thread_cpu: 0,
        sq_thread_idle: 0,
        features,
        wq_fd: 0,
        sq_off: io_sqring_offsets {
            head: 0,
            tail: 64,
            ring_mask: 256,
            ring_entries: 264,
            flags: 276,
            dropped: 272,
            array: 320 + 16 * cq_entries,
        },
        cq_off: io_cqring_offsets {
            head: 128,
            tail: 192,
            ring_mask: 260,
            ring_entries: 268,
            overflow: 284,
            cqes: 320,
            flags: 280,
        },
    }
}

/// The counters of an empty ring of `entries` slots that stand at `start`.
fn counters(entries: u32, start: u32) -> RingIndices {
    RingIndices { head: start, tail: start, ring_mask: entries - 1, ring_entries: entries }
}

fn ring_at(entries: u32, start: u32) -> Ring {
    let p = answer(entries, 2 * entries, 1);
    Ring::new(entries, 3, &p, &counters(entries, start), &counters(2 * entries, start)).unwrap()
}

fn ring_of(entries: u32) -> Ring {
    ring_at(entries, 0)
}

fn nop(tag: u64) -> RingOp {
    RingOp::builder().user_data(tag).build()
}

fn completion(tag: u64, res: i32) -> io_uring_cqe {
    io_uring_cqe { user_data: tag, res, flags: 0 }
}

#[test]
fn creation_succeeds_for_every_power_of_two() {
    let mut entries: u32 = 1;
    while entries <= 32768 {
        let ring = ring_of(entries);
        assert_eq!(ring.fd(), 3);
        assert_eq!(ring.pending(), 0);
        assert_eq!(ring.submission_ring().entries(), entries);
        assert_eq!(ring.submission_ring().mask(), entries - 1);
        assert_eq!(ring.submission_ring().len(), 0);
        assert_eq!(ring.completion_ring().entries(), 2 * entries);
        assert_eq!(ring.completion_ring().mask(), 2 * entries - 1);
        assert_eq!(ring.completion_ring().len(), 0);
        entries *= 2;
    }
}

#[test]
fn creation_accepts_a_count_that_the_kernel_rounded_up() {
    let p = answer(4, 8, 1);
    let ring = Ring::new(3, 3, &p, &counters(4, 0), &counters(8, 0)).unwrap();
    assert_eq!(ring.submission_ring().entries(), 4);
    assert_eq!(ring.submission_ring().mask(), 3);
}

#[test]
fn creation_without_a_handle_is_a_setup_error() {
    let p = answer(4, 8, 1);
    let r = Ring::new(4, -1, &p, &counters(4, 0), &counters(8, 0));
    assert_eq!(r.err(), Some(RingError::Setup));
    assert_eq!(Ring::mem_map(-1, &p), Err(RingError::Setup));
}

#[test]
fn creation_with_a_part_outside_its_region_is_a_layout_error() {
    let mut p = answer(4, 8, 0);
    p.sq_off.dropped = 4096;
    let r = Ring::new(4, 3, &p, &counters(4, 0), &counters(8, 0));
    assert_eq!(r.err(), Some(RingError::Layout));
    assert_eq!(Ring::mem_map(3, &p), Err(RingError::Layout));
    let mut q = answer(4, 8, 0);
    q.cq_off.overflow = 445;
    assert_eq!(Ring::mem_map(3, &q), Err(RingError::Layout));
    q.cq_off.overflow = 444;
    assert!(Ring::mem_map(3, &q).is_ok());
}

#[test]
fn creation_with_contradicting_geometry_is_a_geometry_error() {
    let p = answer(4, 8, 1);
    let sq = counters(4, 0);
    let cq = counters(8, 0);
    let geometry = Some(RingError::Geometry);
    assert_eq!(Ring::new(5, 3, &p, &sq, &cq).err(), geometry);
    let wrong_mask = RingIndices { ring_mask: 7, ..sq };
    assert_eq!(Ring::new(4, 3, &p, &wrong_mask, &cq).err(), geometry);
    let wrong_size = RingIndices { ring_entries: 8, ..sq };
    assert_eq!(Ring::new(4, 3, &p, &wrong_size, &cq).err(), geometry);
    let not_empty = RingIndices { tail: 1, ..sq };
    assert_eq!(Ring::new(4, 3, &p, &not_empty, &cq).err(), geometry);
    let cq_not_empty = RingIndices { head: 1, ..cq };
    assert_eq!(Ring::new(4, 3, &p, &sq, &cq_not_empty).err(), geometry);
    let cq_wrong_mask = RingIndices { ring_mask: 3, ..cq };
    assert_eq!(Ring::new(4, 3, &p, &sq, &cq_wrong_mask).err(), geometry);
    let odd = answer(3, 8, 1);
    let odd_sq = RingIndices { head: 0, tail: 0, ring_mask: 2, ring_entries: 3 };
    assert_eq!(Ring::new(3, 3, &odd, &odd_sq, &cq).err(), geometry);
    let none = answer(0, 8, 1);
    let none_sq = RingIndices { head: 0, tail: 0, ring_mask: 0, ring_entries: 0 };
    assert_eq!(Ring::new(0, 3, &none, &none_sq, &cq).err(), geometry);
}

#[test]
fn errors_come_in_the_order_setup_layout_geometry() {
    let mut p = answer(3, 8, 0);
    p.sq_off.head = 1 << 20;
    let sq = RingIndices { head: 0, tail: 0, ring_mask: 2, ring_entries: 3 };
    let cq = counters(8, 0);
    assert_eq!(Ring::new(3, -1, &p, &sq, &cq).err(), Some(RingError::Setup));
    assert_eq!(Ring::new(3, 0, &p, &sq, &cq).err(), Some(RingError::Layout));
    p.sq_off.head = 0;
    assert_eq!(Ring::new(3, 0, &p, &sq, &cq).err(), Some(RingError::Geometry));
}

#[test]
fn mem_map_gives_each_ring_its_own_region() {
    let p = answer(4, 8, 0);
    let plan = Ring::mem_map(3, &p).unwrap();
    assert_eq!(
        plan,
        MemoryPlan {
            sq_ring_size: 448 + 4 * 4,
            cq_ring_size: 320 + 16 * 8,
            sqe_array_size: 64 * 4,
            single_map: false,
        }
    );
}

#[test]
fn mem_map_shares_one_region_of_the_larger_size() {
    let p = answer(4, 8, 1);
    let plan = Ring::mem_map(3, &p).unwrap();
    assert_eq!(
        plan,
        MemoryPlan { sq_ring_size: 464, cq_ring_size: 464, sqe_array_size: 256, single_map: true }
    );
    let mut q = answer(4, 8, 3);
    q.sq_off.array = 64;
    let plan = Ring::mem_map(3, &q).unwrap();
    assert_eq!(
        plan,
        MemoryPlan { sq_ring_size: 448, cq_ring_size: 448, sqe_array_size: 256, single_map: true }
    );
}

#[test]
fn mem_map_does_not_overflow_on_the_largest_numbers() {
    let mut p = answer(1, 1, 0);
    p.sq_entries = u32::MAX;
    p.cq_entries = u32::MAX;
    p.sq_off.array = u32::MAX;
    p.cq_off.cqes = u32::MAX;
    let plan = Ring::mem_map(0, &p).unwrap();
    assert_eq!(plan.sq_ring_size, 4294967295 + 4 * 4294967295);
    assert_eq!(plan.cq_ring_size, 4294967295 + 16 * 4294967295);
    assert_eq!(plan.sqe_array_size, 64 * 4294967295);
}

#[test]
fn read_of_thirteen_bytes_completes_with_its_tag() {
    let mut ring = ring_of(1);
    let read = RingOp::read_builder()
        .fd(5)
        .addr(0x7f00_0000_1000)
        .len(13)
        .off(0)
        .flags(0)
        .user_data(7)
        .build();
    assert_eq!(ring.add(read), Ok(0));
    assert_eq!(
        ring.enter_args(),
        EnterArgs { fd: 3, to_submit: 1, min_complete: 0, flags: 1 }
    );
    assert_eq!(ring.submit(1), Ok(1));
    assert_eq!(ring.wait(), 0);
    assert_eq!(ring.receive(completion(7, 13)), Ok(()));
    let done = ring.drain();
    assert_eq!(done.len(), 1);
    assert_eq!(done[0].user_data, 7);
    assert_eq!(done[0].res, 13);
    assert_eq!(ring.wait(), 0);
}

#[test]
fn wait_counts_until_the_completion_has_arrived() {
    let mut ring = ring_of(1);
    ring.add(nop(7)).unwrap();
    assert_eq!(ring.submit(1), Ok(1));
    let mut polls = 0;
    let mut count = ring.wait();
    while count != 1 {
        polls += 1;
        if polls == 3 {
            ring.receive(completion(7, 13)).unwrap();
        }
        count = ring.wait();
    }
    assert_eq!(polls, 3);
    assert_eq!(ring.completion_ring().head(), 1);
    assert_eq!(ring.completion_ring().tail(), 1);
}

#[test]
fn second_add_into_a_ring_of_one_is_refused() {
    let mut ring = ring_of(1);
    let first = nop(1).entry();
    let second = nop(2).entry();
    assert_eq!(ring.add(nop(1)), Ok(0));
    assert_eq!(ring.add(nop(2)), Err(RingError::Full));
    assert_eq!(ring.pending(), 1);
    assert_eq!(ring.submission_ring().len(), 1);
    assert_eq!(ring.submission_ring().tail(), 1);
    assert_eq!(ring.submission_ring().entry(0), Some(first));
    assert_eq!(ring.submit(1), Ok(1));
    assert_eq!(ring.add(nop(2)), Ok(0));
    assert_eq!(ring.submission_ring().entry(0), Some(second));
}

#[test]
fn failed_read_is_a_completion_with_a_negative_result() {
    let mut ring = ring_of(2);
    let read = RingOp::read_builder().fd(-1).addr(4096).len(13).user_data(9).build();
    assert_eq!(ring.add(read), Ok(0));
    assert_eq!(ring.submit(1), Ok(1));
    assert_eq!(ring.receive(completion(9, -9)), Ok(()));
    assert_eq!(ring.drain(), vec![completion(9, -9)]);
}

#[test]
fn accepted_count_is_at_most_what_was_enqueued() {
    let mut ring = ring_of(4);
    for tag in 0..3 {
        assert_eq!(ring.add(nop(tag)), Ok(tag as u32));
    }
    assert_eq!(ring.pending(), 3);
    assert_eq!(ring.enter_args().to_submit, 3);
    assert_eq!(ring.submit(4), Err(RingError::Enter));
    assert_eq!(ring.pending(), 0);
    assert_eq!(ring.submission_ring().len(), 3);

    let mut ring = ring_of(4);
    for tag in 0..3 {
        ring.add(nop(tag)).unwrap();
    }
    assert_eq!(ring.submit(3), Ok(3));
    assert_eq!(ring.pending(), 0);
    assert_eq!(ring.submission_ring().len(), 0);
    assert_eq!(ring.submission_ring().head(), 3);
    for tag in 0..3 {
        ring.receive(completion(tag, 0)).unwrap();
    }
    assert_eq!(ring.wait(), 3);
    assert_eq!(ring.wait(), 0);
}

#[test]
fn partly_accepted_entries_stay_queued() {
    let mut ring = ring_of(4);
    for tag in 10..14 {
        ring.add(nop(tag)).unwrap();
    }
    assert_eq!(ring.submit(1), Ok(1));
    assert_eq!(ring.pending(), 0);
    assert_eq!(ring.submission_ring().head(), 1);
    assert_eq!(ring.submission_ring().len(), 3);
    assert_eq!(ring.enter_args().to_submit, 0);
    assert_eq!(ring.add(nop(14)), Ok(0));
    assert_eq!(ring.add(nop(15)), Err(RingError::Full));
    assert_eq!(ring.submission_ring().entry(1).unwrap().user_data, 11);
    assert_eq!(ring.submission_ring().entry(0).unwrap().user_data, 14);
}

#[test]
fn failed_enter_call_keeps_the_entries_and_clears_pending() {
    let mut ring = ring_of(2);
    ring.add(nop(1)).unwrap();
    assert_eq!(ring.submit(-1), Err(RingError::Enter));
    assert_eq!(ring.pending(), 0);
    assert_eq!(ring.submission_ring().len(), 1);
    assert_eq!(ring.submission_ring().head(), 0);
    assert_eq!(ring.submit(i64::MIN), Err(RingError::Enter));
    assert_eq!(ring.submit(i64::MAX), Err(RingError::Enter));
    assert_eq!(ring.submit(0), Ok(0));
}

#[test]
fn tags_come_back_in_the_order_of_the_completions() {
    let mut ring = ring_of(4);
    let tags: [u64; 3] = [u64::MAX, 0, 0xdead_beef];
    for (slot, tag) in tags.iter().enumerate() {
        let op = RingOp::builder().user_data(*tag).build();
        assert_eq!(op.entry().user_data, *tag);
        assert_eq!(ring.add(op), Ok(slot as u32));
        assert_eq!(ring.submission_ring().entry(slot as u32).unwrap().user_data, *tag);
    }
    assert_eq!(ring.submit(3), Ok(3));
    ring.receive(completion(0xdead_beef, 1)).unwrap();
    ring.receive(completion(u64::MAX, 2)).unwrap();
    ring.receive(completion(0, 3)).unwrap();
    let done = ring.drain();
    assert_eq!(done, vec![completion(0xdead_beef, 1), completion(u64::MAX, 2), completion(0, 3)]);
}

#[test]
fn slots_are_reused_after_a_full_round() {
    let entries: u32 = 4;
    let mut ring = ring_of(entries);
    for n in 0..(entries + 3) {
        let slot = ring.add(nop(n as u64)).unwrap();
        assert_eq!(slot, n % entries);
        assert_eq!(ring.submission_ring().indirection(slot), Some(slot));
        assert_eq!(ring.submission_ring().entry(slot).unwrap().user_data, n as u64);
        assert_eq!(ring.submission_ring().tail(), n + 1);
        assert_eq!(ring.submit(1), Ok(1));
        ring.receive(completion(n as u64, 0)).unwrap();
        assert_eq!(ring.wait(), 1);
    }
}

#[test]
fn slots_stay_in_step_when_the_counters_wrap() {
    let mut ring = ring_at(4, u32::MAX - 1);
    assert_eq!(ring.add(nop(1)), Ok(2));
    assert_eq!(ring.add(nop(2)), Ok(3));
    assert_eq!(ring.submission_ring().tail(), 0);
    assert_eq!(ring.submission_ring().len(), 2);
    assert_eq!(ring.add(nop(3)), Ok(0));
    assert_eq!(ring.add(nop(4)), Ok(1));
    assert_eq!(ring.submission_ring().tail(), 2);
    assert_eq!(ring.submission_ring().len(), 4);
    assert_eq!(ring.add(nop(5)), Err(RingError::Full));
    assert_eq!(ring.submit(4), Ok(4));
    assert_eq!(ring.submission_ring().head(), 2);
    assert_eq!(ring.completion_ring().next_slot(), 6);
    for tag in 1..5 {
        ring.receive(completion(tag, 0)).unwrap();
    }
    assert_eq!(ring.completion_ring().tail(), 2);
    assert_eq!(ring.completion_ring().len(), 4);
    assert_eq!(
        ring.drain(),
        vec![completion(1, 0), completion(2, 0), completion(3, 0), completion(4, 0)]
    );
    assert_eq!(ring.completion_ring().head(), 2);
}

#[test]
fn full_completion_ring_refuses_another_entry() {
    let mut ring = ring_of(1);
    assert_eq!(ring.receive(completion(1, 0)), Ok(()));
    assert_eq!(ring.receive(completion(2, 0)), Ok(()));
    assert_eq!(ring.receive(completion(3, 0)), Err(RingError::Overflow));
    assert_eq!(ring.completion_ring().len(), 2);
    assert_eq!(ring.drain(), vec![completion(1, 0), completion(2, 0)]);
    assert_eq!(ring.receive(completion(3, 0)), Ok(()));
    assert_eq!(ring.wait(), 1);
}

#[test]
fn fresh_ring_holds_zeroed_entries() {
    let ring = ring_of(2);
    assert_eq!(ring.submission_ring().entry(0), Some(io_uring_sqe::default()));
    assert_eq!(ring.submission_ring().entry(1), Some(io_uring_sqe::default()));
    assert_eq!(ring.submission_ring().entry(2), None);
    assert_eq!(ring.submission_ring().indirection(1), Some(0));
    assert_eq!(ring.submission_ring().indirection(2), None);
}
