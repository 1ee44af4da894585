use lxr_core::plan::lxr::barrier::LXRFieldBarrierSemantics;
use lxr_core::plan::lxr::global::Lxr;
use lxr_core::util::address::ObjectReference;
use lxr_core::util::rc::{GREY, LOGGED_VALUE, UNLOGGED_VALUE};
use lxr_core::vm::heap::{Heap, ObjectInfo};

const A: usize = 0x1000;
const B: usize = 0x1040;

fn obj(addr: usize) -> ObjectReference {
    ObjectReference::from_raw_address(addr)
}

/// `A` refers to `B` and has another slot that holds nothing.
fn setup(lazy: bool) -> (Heap, Lxr, LXRFieldBarrierSemantics) {
    let mut heap = Heap::new();
    let mut lxr = Lxr::new(lazy, true);
    for (addr, slots) in [(A, vec![A + 8, A + 16]), (B, vec![])] {
        heap.add_object(ObjectInfo {
            object: obj(addr),
            size: 64,
            slots,
            is_obj_array: false,
            in_immix_space: true,
        });
    }
    heap.store(A + 8, Some(obj(B)));
    lxr.tables.field_unlog.store(A + 8, UNLOGGED_VALUE);
    lxr.tables.field_unlog.store(A + 16, UNLOGGED_VALUE);
    (heap, lxr, LXRFieldBarrierSemantics::new())
}

#[test]
fn first_write_is_recorded_and_the_second_is_not() {
    let (heap, mut lxr, mut barrier) = setup(true);
    assert!(barrier.enqueue_node(&mut lxr, &heap, Some(obj(A)), A + 8));
    assert_eq!(barrier.incs, vec![A + 8]);
    assert_eq!(barrier.decs, vec![obj(B)]);
    assert_eq!(lxr.tables.field_unlog.load(A + 8), LOGGED_VALUE);
    assert!(!barrier.enqueue_node(&mut lxr, &heap, Some(obj(A)), A + 8));
    assert_eq!(barrier.incs.len(), 1);
    // A slot that held nothing takes no reference away.
    barrier.object_reference_write_slow(&mut lxr, &heap, Some(obj(A)), A + 16);
    assert_eq!(barrier.incs, vec![A + 8, A + 16]);
    assert_eq!(barrier.decs.len(), 1);
    assert!(lxr.satb_map.is_empty());
}

#[test]
fn flush_makes_packets() {
    for lazy in [true, false] {
        let (heap, mut lxr, mut barrier) = setup(lazy);
        barrier.object_probable_write_slow(&mut lxr, &heap, obj(A));
        barrier.flush(&mut lxr);
        assert_eq!(lxr.inc_packets, vec![vec![A + 8, A + 16]]);
        assert_eq!(lxr.tables.inc_buffer_size, 2);
        let (packets, others) = if lazy {
            (&lxr.lazy_dec_packets, &lxr.stw_dec_packets)
        } else {
            (&lxr.stw_dec_packets, &lxr.lazy_dec_packets)
        };
        assert_eq!(*packets, vec![vec![obj(B)]]);
        assert!(others.is_empty());
        assert!(barrier.incs.is_empty());
        assert!(barrier.decs.is_empty());
        // There is nothing left to flush.
        barrier.flush(&mut lxr);
        assert_eq!(lxr.inc_packets.len(), 1);
    }
}

#[test]
fn old_value_is_recorded_during_cycle_collection() {
    let (heap, mut lxr, mut barrier) = setup(true);
    lxr.in_cycle_collection = true;
    // No traversal holds the object.
    barrier.enqueue_node(&mut lxr, &heap, Some(obj(A)), A + 8);
    assert!(lxr.satb_map.is_empty());
    assert_eq!(barrier.slow_in_cc, 1);
    assert_eq!(barrier.satb_inserts, 0);

    let (heap, mut lxr, mut barrier) = setup(true);
    lxr.in_cycle_collection = true;
    lxr.set_color(obj(A), GREY);
    barrier.enqueue_node(&mut lxr, &heap, Some(obj(A)), A + 8);
    assert_eq!(lxr.satb_map.get(&(A + 8)), Some(&Some(obj(B))));
    // Whose slot it is is not known.
    barrier.memory_region_copy_slow(&mut lxr, &heap, &vec![A + 8, A + 16]);
    assert_eq!(lxr.satb_map.get(&(A + 16)), Some(&None));
    barrier.flush(&mut lxr);
    assert_eq!(lxr.counters.barrier_slow_in_cc, 2);
    assert_eq!(lxr.counters.barrier_satb_inserts, 2);
    assert_eq!(barrier.slow_in_cc, 0);
}

#[test]
fn barriers_are_counted_inside_the_measured_part() {
    let (heap, mut lxr, mut barrier) = setup(true);
    barrier.enqueue_node(&mut lxr, &heap, Some(obj(A)), A + 8);
    assert_eq!(lxr.counters.fast_count, 0);
    lxr.inside_harness = true;
    barrier.enqueue_node(&mut lxr, &heap, Some(obj(A)), A + 8);
    barrier.enqueue_node(&mut lxr, &heap, Some(obj(A)), A + 16);
    assert_eq!(lxr.counters.fast_count, 2);
    assert_eq!(lxr.counters.slow_count, 1);
}

#[test]
fn logging_returns_the_old_value_once() {
    let (heap, mut lxr, barrier) = setup(true);
    assert_eq!(
        barrier.log_slot_and_get_old_target_sloppy(&heap, &mut lxr, A + 8),
        Ok(Some(obj(B)))
    );
    assert_eq!(barrier.log_slot_and_get_old_target_sloppy(&heap, &mut lxr, A + 8), Err(()));
    assert_eq!(barrier.log_slot_and_get_old_target_sloppy(&heap, &mut lxr, A + 16), Ok(None));
}

#[test]
fn full_queue_is_flushed() {
    let mut heap = Heap::new();
    let mut lxr = Lxr::new(true, false);
    let slots: Vec<usize> = (0..5000).map(|i| 0x10_0000 + 8 * i).collect();
    heap.add_object(ObjectInfo {
        object: obj(0xf_0000),
        size: 0x2_0000,
        slots: slots.clone(),
        is_obj_array: true,
        in_immix_space: false,
    });
    for slot in &slots {
        lxr.tables.field_unlog.store(*slot, UNLOGGED_VALUE);
    }
    let mut barrier = LXRFieldBarrierSemantics::new();
    barrier.object_probable_write_slow(&mut lxr, &heap, obj(0xf_0000));
    assert_eq!(lxr.inc_packets.len(), 1);
    assert_eq!(lxr.inc_packets[0].len(), 4096);
    assert_eq!(barrier.incs.len(), 904);
}
