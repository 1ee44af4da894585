use lxr_core::plan::immix::Pause;
use lxr_core::plan::lxr::cycle_stats::CycleCollectorStats;
use lxr_core::plan::lxr::gc_work::CycleCollector;
use lxr_core::plan::lxr::global::Lxr;
use lxr_core::plan::lxr::readiness::ready_to_collect;
use lxr_core::util::address::{Block, ObjectReference};
use lxr_core::util::rc::{BLACK_IN_STACK, BLACK_OUT_OF_STACK, GREY, UNLOGGED_VALUE};
use lxr_core::util::side_metadata::SideTable;
use lxr_core::vm::heap::{Heap, ObjectInfo};

const A: usize = 0x1_0000;
const B: usize = 0x1_0040;
const C: usize = 0x1_0080;
const D: usize = 0x1_00c0;

fn obj(addr: usize) -> ObjectReference {
    ObjectReference::from_raw_address(addr)
}

/// Objects of 64 bytes with their slots behind their headers. `edges` gives what
/// the slots of each object hold.
fn build(edges: &[(usize, &[usize])]) -> (Heap, Lxr) {
    let mut heap = Heap::new();
    let mut lxr = Lxr::new(true, false);
    for (addr, targets) in edges {
        heap.add_object(ObjectInfo {
            object: obj(*addr),
            size: 64,
            slots: (0..targets.len()).map(|i| addr + 8 + 8 * i).collect(),
            is_obj_array: false,
            in_immix_space: true,
        });
    }
    for (addr, targets) in edges {
        lxr.rc.inc(&mut lxr.tables, obj(*addr)).unwrap();
        for (i, target) in targets.iter().enumerate() {
            let slot = addr + 8 + 8 * i;
            heap.store(slot, Some(obj(*target)));
            lxr.tables.field_unlog.store(slot, UNLOGGED_VALUE);
        }
    }
    for (_, targets) in edges {
        for target in targets.iter() {
            lxr.inc_exclusive(obj(*target));
            lxr.strong_rc_inc_exclusive(obj(*target));
        }
    }
    (heap, lxr)
}

/// Makes the object a candidate of the pool.
fn candidate(lxr: &mut Lxr, o: usize, pool: usize) {
    lxr.set_strong_count(obj(o), 0);
    lxr.set_candidate_status(obj(o), pool as u8 + 1);
    let mut local = lxr.candidate_pools[pool].local_buffer();
    local.push(&mut lxr.candidate_pools[pool], obj(o));
    local.close(&mut lxr.candidate_pools[pool]);
}

fn counts(lxr: &Lxr, os: &[usize]) -> Vec<u8> {
    os.iter().map(|o| lxr.count(obj(*o))).collect()
}

#[test]
fn garbage_cycle_is_collected() {
    let (heap, mut lxr) = build(&[(A, &[B]), (B, &[A])]);
    candidate(&mut lxr, A, 1);
    let mut cc = CycleCollector::new();
    cc.do_work(&heap, &mut lxr);
    assert_eq!(counts(&lxr, &[A, B]), vec![0, 0]);
    assert_eq!(lxr.candidate_status(obj(A)), 0);
    assert_eq!(lxr.color(obj(A)), BLACK_OUT_OF_STACK);
    assert_eq!(lxr.possibly_dead_mature_blocks, vec![Block { start: A }, Block { start: A }]);
    assert_eq!(lxr.overwritten_objects, vec![obj(A), obj(B)]);
    assert_eq!(lxr.stat.dead_mature_objects, 2);
    assert_eq!(lxr.stat.dead_mature_volume, 128);
    assert_eq!(lxr.stat.dead_mature_los_objects, 0);
    assert_eq!(lxr.graph_reporter.cycle_collector_freed, vec![A, B]);
    assert!(!lxr.in_cycle_collection);
    assert_eq!(cc.stats.raw_cycle_candidates, 1);
    assert_eq!(cc.stats.candidates_after_filter, 1);
    assert_eq!(cc.stats.objects_in_mark, 2);
    assert_eq!(cc.stats.objects_in_scan_black, 0);
}

#[test]
fn referenced_cycle_is_left() {
    let (heap, mut lxr) = build(&[(A, &[B]), (B, &[A])]);
    // One reference from outside.
    lxr.inc_exclusive(obj(A));
    candidate(&mut lxr, A, 1);
    let mut cc = CycleCollector::new();
    cc.do_work(&heap, &mut lxr);
    assert_eq!(counts(&lxr, &[A, B]), vec![3, 2]);
    assert_eq!(lxr.color(obj(A)), BLACK_OUT_OF_STACK);
    assert_eq!(lxr.color(obj(B)), BLACK_OUT_OF_STACK);
    assert!(lxr.graph_reporter.cycle_collector_freed.is_empty());
    assert!(lxr.possibly_dead_mature_blocks.is_empty());
    assert!(lxr.strong_count(obj(A)) > 0);
    assert!(lxr.strong_count(obj(B)) > 0);
    assert_eq!(cc.stats.objects_in_scan_black, 2);
}

#[test]
fn object_behind_a_garbage_cycle_is_collected_too() {
    let (heap, mut lxr) = build(&[(A, &[B, C]), (B, &[A]), (C, &[])]);
    candidate(&mut lxr, A, 1);
    CycleCollector::new().do_work(&heap, &mut lxr);
    assert_eq!(counts(&lxr, &[A, B, C]), vec![0, 0, 0]);
    let mut freed = lxr.graph_reporter.cycle_collector_freed.clone();
    freed.sort();
    assert_eq!(freed, vec![A, B, C]);
}

#[test]
fn what_is_left_has_the_count_of_what_is_left() {
    // A and B are garbage; B and D refer to C, and something outside to D.
    let (heap, mut lxr) = build(&[(A, &[B]), (B, &[A, C]), (C, &[]), (D, &[C])]);
    lxr.inc_exclusive(obj(D));
    assert_eq!(counts(&lxr, &[A, B, C, D]), vec![2, 2, 3, 2]);
    candidate(&mut lxr, A, 1);
    CycleCollector::new().do_work(&heap, &mut lxr);
    assert_eq!(counts(&lxr, &[A, B, C, D]), vec![0, 0, 2, 2]);
    assert_eq!(lxr.graph_reporter.cycle_collector_freed, vec![A, B]);
    assert_eq!(lxr.color(obj(C)), BLACK_IN_STACK);
    assert_eq!(lxr.color(obj(D)), BLACK_OUT_OF_STACK);
}

#[test]
fn ordinary_collection_takes_one_pool() {
    let (heap, mut lxr) = build(&[(A, &[B]), (B, &[A])]);
    candidate(&mut lxr, A, 2);
    CycleCollector::new().do_work(&heap, &mut lxr);
    assert_eq!(counts(&lxr, &[A, B]), vec![2, 2]);
    assert_eq!(lxr.candidate_status(obj(A)), 3);
    // The pool is next when the pools have moved on.
    lxr.curr_vec = 1;
    CycleCollector::new().do_work(&heap, &mut lxr);
    assert_eq!(counts(&lxr, &[A, B]), vec![0, 0]);
}

#[test]
fn full_collection_takes_every_pool() {
    for pool in 0..3 {
        let (heap, mut lxr) = build(&[(A, &[B]), (B, &[A])]);
        lxr.current_pause = Some(Pause::FullRC);
        candidate(&mut lxr, A, pool);
        CycleCollector::new().do_work(&heap, &mut lxr);
        assert_eq!(counts(&lxr, &[A, B]), vec![0, 0]);
        assert_eq!(lxr.curr_vec, 0);
    }
}

#[test]
fn cycle_over_two_pools_is_collected() {
    let (heap, mut lxr) = build(&[(A, &[B]), (B, &[A])]);
    lxr.current_pause = Some(Pause::FullRC);
    candidate(&mut lxr, A, 1);
    candidate(&mut lxr, B, 0);
    CycleCollector::new().do_work(&heap, &mut lxr);
    assert_eq!(counts(&lxr, &[A, B]), vec![0, 0]);
}

#[test]
fn candidate_with_strong_references_is_dropped() {
    let (heap, mut lxr) = build(&[(A, &[B]), (B, &[A])]);
    candidate(&mut lxr, A, 1);
    lxr.set_strong_count(obj(A), 1);
    let mut cc = CycleCollector::new();
    cc.do_work(&heap, &mut lxr);
    assert_eq!(counts(&lxr, &[A, B]), vec![2, 2]);
    assert_eq!(lxr.candidate_status(obj(A)), 0);
    assert_eq!(cc.stats.raw_cycle_candidates, 1);
    assert_eq!(cc.stats.candidates_after_filter, 0);
}

#[test]
fn object_with_a_logged_slot_is_put_off() {
    let (heap, mut lxr) = build(&[(A, &[B]), (B, &[A])]);
    candidate(&mut lxr, A, 1);
    // The slot of the candidate was written since the last collection.
    lxr.tables.field_unlog.store(A + 8, 0);
    CycleCollector::new().do_work(&heap, &mut lxr);
    assert_eq!(counts(&lxr, &[A, B]), vec![2, 2]);
    // It is a candidate of the pool that is being filled.
    assert_eq!(lxr.candidate_status(obj(A)), 1);
    let again = lxr.candidate_pools[0].into_final_buffers().into_vecs();
    assert_eq!(again, vec![vec![obj(A)]]);
}

#[test]
fn large_object_is_freed() {
    let mut heap = Heap::new();
    let mut lxr = Lxr::new(true, false);
    heap.add_object(ObjectInfo {
        object: obj(A),
        size: 0x1_0000,
        slots: vec![A + 16],
        is_obj_array: true,
        in_immix_space: false,
    });
    heap.store(A + 16, Some(obj(A)));
    lxr.tables.field_unlog.store(A + 16, UNLOGGED_VALUE);
    lxr.inc_exclusive(obj(A));
    lxr.inc_exclusive(obj(A));
    candidate(&mut lxr, A, 1);
    CycleCollector::new().do_work(&heap, &mut lxr);
    assert_eq!(counts(&lxr, &[A]), vec![0]);
    assert_eq!(lxr.freed_large_objects, vec![obj(A)]);
    assert!(lxr.possibly_dead_mature_blocks.is_empty());
    assert_eq!(lxr.stat.dead_mature_los_objects, 1);
    assert_eq!(lxr.stat.dead_mature_rc_los_volume, 0x1_0000);
}

#[test]
fn lines_of_counters() {
    let stats = CycleCollectorStats {
        raw_cycle_candidates: 1,
        candidates_after_filter: 2,
        objects_in_mark: 30,
        objects_in_scan: 4,
        objects_in_scan_black: 5,
        objects_in_collect: 6,
        satb_map_size: 7,
        satb_reads: 0,
    };
    assert_eq!(stats.log_lines(false), "1,2,30,4,5,6,7,0\n");
    assert_eq!(
        stats.log_lines(true),
        "raw_cycle_candidates,candidates_after_filter,objects_in_mark,objects_in_scan,\
         objects_in_scan_black,objects_in_collect,satb_map_size,satb_reads\n1,2,30,4,5,6,7,0\n"
    );
}

#[test]
fn when_a_collection_can_begin() {
    let (heap, mut lxr) = build(&[(A, &[B]), (B, &[A])]);
    candidate(&mut lxr, A, 1);
    assert!(ready_to_collect(&heap, &lxr));
    assert!(heap.has(obj(A)) && !heap.has(obj(C)));
    // A candidate that the heap does not know.
    let (heap, mut lxr) = build(&[(A, &[B]), (B, &[A])]);
    candidate(&mut lxr, C, 2);
    assert!(!ready_to_collect(&heap, &lxr));
    // A logged slot of an object that is not black.
    let (heap, mut lxr) = build(&[(A, &[B]), (B, &[A])]);
    lxr.tables.field_unlog.store(A + 8, 0);
    assert!(ready_to_collect(&heap, &lxr));
    lxr.set_color(obj(A), GREY);
    assert!(!ready_to_collect(&heap, &lxr));
    // A pool with an empty buffer.
    let (heap, mut lxr) = build(&[(A, &[B]), (B, &[A])]);
    lxr.candidate_pools[0].available.push(vec![]);
    assert!(!ready_to_collect(&heap, &lxr));
}

#[test]
fn first_report_of_a_full_collection_keeps_what_was_reported() {
    let (heap, mut lxr) = build(&[(A, &[B]), (B, &[A])]);
    lxr.current_pause = Some(Pause::FullRC);
    candidate(&mut lxr, A, 1);
    lxr.graph_reporter.roots.push(C);
    lxr.graph_reporter.allocated.push(B);
    lxr.graph_reporter.rc_freed.push(D);
    CycleCollector::new().do_work(&heap, &mut lxr);
    let reports = &lxr.finished_reports;
    assert_eq!(reports.len(), 3);
    assert_eq!(reports[0].roots, vec![C]);
    assert_eq!(reports[0].allocated, vec![B]);
    assert_eq!(reports[0].rc_freed, vec![D]);
    for report in &reports[1..] {
        assert!(report.roots.is_empty());
        assert!(report.allocated.is_empty());
        assert!(report.rc_freed.is_empty());
        assert!(report.cycle_collector_freed.is_empty());
    }
    let candidates: Vec<usize> = reports.iter().flat_map(|r| r.candidates.clone()).collect();
    assert_eq!(candidates, vec![A]);
    assert_eq!(lxr.graph_reporter.cycle_collector_freed, vec![A, B]);
}

#[test]
fn garbage_over_three_pools_is_collected() {
    // Two cycles, one behind the other, and something that only they refer to.
    let (heap, mut lxr) = build(&[(A, &[B]), (B, &[A, C]), (C, &[D, C]), (D, &[])]);
    lxr.current_pause = Some(Pause::FullRC);
    candidate(&mut lxr, A, 2);
    candidate(&mut lxr, B, 0);
    candidate(&mut lxr, C, 1);
    lxr.set_strong_count(obj(D), 0);
    CycleCollector::new().do_work(&heap, &mut lxr);
    assert_eq!(counts(&lxr, &[A, B, C, D]), vec![0, 0, 0, 0]);
    let mut freed = lxr.graph_reporter.cycle_collector_freed.clone();
    freed.sort();
    assert_eq!(freed, vec![A, B, C, D]);
}

#[test]
fn what_is_left_is_held() {
    // A and B are garbage; B and D refer to C, and something outside to D.
    let (heap, mut lxr) = build(&[(A, &[B]), (B, &[A, C]), (C, &[]), (D, &[C])]);
    lxr.inc_exclusive(obj(D));
    lxr.strong_rc_inc_exclusive(obj(D));
    candidate(&mut lxr, A, 1);
    CycleCollector::new().do_work(&heap, &mut lxr);
    assert_eq!(lxr.graph_reporter.cycle_collector_freed, vec![A, B]);
    for o in [C, D] {
        assert!(lxr.strong_count(obj(o)) > 0 || lxr.candidate_status(obj(o)) != 0);
        assert!(lxr.strong_count(obj(o)) <= lxr.count(obj(o)));
    }
    assert_eq!(lxr.strong_count(obj(C)), 1);
}

#[test]
fn well_formed_heap_and_plan() {
    let (mut heap, mut lxr) = build(&[(A, &[B]), (B, &[A])]);
    assert!(heap.is_well_formed() && lxr.is_well_formed());
    // A slot that holds what is no object.
    heap.fields.insert(A + 8, Some(obj(C)));
    assert!(!heap.is_well_formed());
    heap.fields.insert(A + 8, None);
    assert!(heap.is_well_formed());
    // A slot that the heap does not know.
    heap.objects[0].slots.push(D);
    assert!(!heap.is_well_formed());
    heap.fields.insert(D, None);
    assert!(heap.is_well_formed());
    // An object that reaches beyond the address space.
    heap.objects[1].size = usize::MAX;
    assert!(!heap.is_well_formed());
    heap.objects[1].size = 64;
    // An index entry without an object.
    heap.index.insert(7, 1);
    assert!(!heap.is_well_formed());
    heap.index.remove(&7);
    assert!(heap.is_well_formed());
    heap.index.clear();
    assert!(!heap.is_well_formed());
    // A color, a pool and a number of pools that there are not.
    lxr.tables.obj_color.store(3, 4);
    assert!(!lxr.is_well_formed());
    lxr.tables.obj_color.store(3, 3);
    assert!(lxr.is_well_formed());
    lxr.curr_vec = 3;
    assert!(!lxr.is_well_formed());
    lxr.curr_vec = 0;
    lxr.candidate_pools.pop();
    assert!(!lxr.is_well_formed());
    assert!(!SideTable::new(2u8).is_at_most(1));
}

#[test]
fn candidate_is_in_the_pool_of_its_tag() {
    // Every object has a logged slot, and each is a candidate of another pool.
    let (heap, mut lxr) = build(&[(A, &[B]), (B, &[C]), (C, &[A])]);
    lxr.current_pause = Some(Pause::FullRC);
    for (o, pool) in [(A, 0), (B, 1), (C, 2)] {
        candidate(&mut lxr, o, pool);
        lxr.tables.field_unlog.store(o + 8, 0);
    }
    CycleCollector::new().do_work(&heap, &mut lxr);
    assert!(lxr.graph_reporter.cycle_collector_freed.is_empty());
    let mut contents = Vec::new();
    for pool in 0..3 {
        let buffers = lxr.candidate_pools[pool].into_final_buffers().into_vecs();
        contents.push(buffers.concat());
    }
    for o in [A, B, C] {
        let tag = lxr.candidate_status(obj(o)) as usize;
        assert!(tag != 0);
        assert!(contents[tag - 1].contains(&obj(o)));
    }
}
