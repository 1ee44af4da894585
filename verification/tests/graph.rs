use lxr_core::plan::lxr::graphs_project::{GcCycleReport, HeapObjectRecord};
use lxr_core::util::address::ObjectReference;
use lxr_core::util::rc::RcTables;
use lxr_core::util::side_metadata::SideTable;
use lxr_core::vm::heap::{Heap, ObjectInfo};

const A: usize = 0x1000;
const B: usize = 0x1040;
const C: usize = 0x1080;

fn obj(addr: usize) -> ObjectReference {
    ObjectReference::from_raw_address(addr)
}

/// `A` refers to `B` twice, `B` to `A`, and `C` to `A`.
fn graph() -> (Heap, RcTables) {
    let mut heap = Heap::new();
    let mut t = RcTables::new();
    for (addr, slots) in [(A, vec![A + 8, A + 16]), (B, vec![B + 8, B + 16]), (C, vec![C + 8])] {
        heap.add_object(ObjectInfo {
            object: obj(addr),
            size: 64,
            slots,
            is_obj_array: false,
            in_immix_space: true,
        });
    }
    heap.store(A + 8, Some(obj(B)));
    heap.store(A + 16, Some(obj(B)));
    heap.store(B + 16, Some(obj(A)));
    heap.store(C + 8, Some(obj(A)));
    for (addr, rc) in [(A, 3), (B, 3), (C, 1)] {
        t.rc.store(addr / 16, rc);
    }
    (heap, t)
}

#[test]
fn report_names_every_reachable_object_once() {
    let (heap, t) = graph();
    let mut marks: SideTable<u8> = SideTable::new(0);
    let mut report = GcCycleReport::new();
    report.mark_candidate_sub_graph(&heap, &t, &mut marks, obj(A));
    assert_eq!(report.candidates, vec![A]);
    assert_eq!(report.objects.len(), 2);
    assert_eq!(report.objects[0].id, A);
    assert_eq!(report.objects[0].refcount, 2);
    assert_eq!(report.objects[0].sons, vec![B, B]);
    assert!(report.objects[0].extra.is_empty());
    assert_eq!(report.objects[1].id, B);
    assert_eq!(report.objects[1].sons, vec![A]);
    // What was reported is not reported again.
    report.mark_candidate_sub_graph(&heap, &t, &mut marks, obj(C));
    assert_eq!(report.candidates, vec![A, C]);
    assert_eq!(report.objects.len(), 3);
    assert_eq!(report.objects[2].id, C);
}

#[test]
fn sweep_takes_the_marks_away() {
    let (heap, t) = graph();
    let mut marks: SideTable<u8> = SideTable::new(0);
    let mut report = GcCycleReport::new();
    report.mark_candidate_sub_graph(&heap, &t, &mut marks, obj(C));
    assert_eq!([A, B, C].map(|a| marks.load(a / 16)), [1, 1, 1]);
    report.sweep_candidate_sub_graph(&heap, &mut marks, obj(C));
    assert_eq!([A, B, C].map(|a| marks.load(a / 16)), [0, 0, 0]);
}

#[test]
fn entries_of_a_record() {
    let mut record = HeapObjectRecord::new(1, 2, vec![3]);
    record.add_extra_usize("n".to_string(), 7);
    record.add_extra_bool("b".to_string(), true);
    record.add_extra_string("s".to_string(), "x".to_string());
    record.add_extra_value("v".to_string(), serde_json::Value::Null);
    record.add_extra_usize("n".to_string(), 8);
    assert_eq!(record.extra.len(), 4);
    assert_eq!(record.extra["n"], serde_json::Value::from(8usize));
    assert_eq!(record.extra["b"], serde_json::Value::Bool(true));
    assert_eq!(record.extra["s"], serde_json::Value::String("x".to_string()));
    assert_eq!(record.extra["v"], serde_json::Value::Null);

    let mut map = serde_json::Map::new();
    map.insert("k".to_string(), serde_json::Value::Null);
    let record = HeapObjectRecord::with_extra(4, 5, vec![], map);
    assert_eq!((record.id, record.refcount), (4, 5));
    assert_eq!(record.extra.len(), 1);
}

#[test]
fn lists_of_a_report() {
    let mut report = GcCycleReport::new();
    report.add_object(1, 2, vec![3]);
    report.add_object_record(HeapObjectRecord::new(4, 0, vec![]));
    report.add_candidate(5);
    report.add_root(6);
    report.add_allocated(7);
    report.add_rc_freed(8);
    report.add_cycle_collector_freed(9);
    assert_eq!(report.objects[0].sons, vec![3]);
    assert_eq!(report.objects[1].id, 4);
    assert_eq!(report.candidates, vec![5]);
    assert_eq!(report.roots, vec![6]);
    assert_eq!(report.allocated, vec![7]);
    assert_eq!(report.rc_freed, vec![8]);
    assert_eq!(report.cycle_collector_freed, vec![9]);
    report.clear();
    assert!(report.objects.is_empty());
    assert!(report.candidates.is_empty());
    assert!(report.roots.is_empty());
    assert!(report.allocated.is_empty());
    assert!(report.rc_freed.is_empty());
    assert!(report.cycle_collector_freed.is_empty());
}
