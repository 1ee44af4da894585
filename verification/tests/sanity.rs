use lxr_core::plan::immix::Pause;
use lxr_core::plan::lxr::global::Lxr;
use lxr_core::util::address::{Block, ObjectReference};
use lxr_core::util::rc::UNLOGGED_VALUE;
use lxr_core::util::sanity_checker::{
    ObjectFacts, RootKind, SanityChecker, SanityError, SanityGCProcessEdges, SanityPacket,
    SanityPrepare, SanityRelease, SanityState, ScheduleSanityGC, WorkBucketStage, DEAD_WORD,
};
use lxr_core::vm::heap::{Heap, ObjectInfo};

const A: usize = 0x8000;
const B: usize = 0x8040;

fn obj(addr: usize) -> ObjectReference {
    ObjectReference::from_raw_address(addr)
}

fn add(heap: &mut Heap, addr: usize, size: usize) {
    heap.add_object(ObjectInfo {
        object: obj(addr),
        size,
        slots: vec![addr + 8],
        is_obj_array: false,
        in_immix_space: true,
    });
}

/// `A` refers to `B`, and both are in order.
fn setup() -> (Heap, Lxr, SanityState) {
    let mut heap = Heap::new();
    let mut lxr = Lxr::new(true, false);
    add(&mut heap, A, 64);
    add(&mut heap, B, 64);
    heap.store(A + 8, Some(obj(B)));
    for addr in [A, B] {
        lxr.rc.set(&mut lxr.tables, obj(addr), 2);
        lxr.set_strong_count(obj(addr), 1);
        lxr.tables.field_unlog.store(addr + 8, UNLOGGED_VALUE);
    }
    lxr.current_pause = Some(Pause::RefCount);
    let mut state = SanityState::new();
    SanityPrepare::new().do_work(&mut state, &mut SanityChecker::new());
    (heap, lxr, state)
}

fn good() -> ObjectFacts {
    ObjectFacts {
        edge_mapped: true,
        is_sane: true,
        is_mapped: true,
        first_word: 0x1234,
        is_forwarded: false,
        in_immix_space: true,
        block_unallocated: false,
        is_marked: true,
        vo_bit: None,
    }
}

#[test]
fn packets_of_a_trace() {
    let mut checker = SanityChecker::new();
    checker.add_root_slots(vec![1, 2], RootKind { code: 7 });
    checker.add_root_slots(vec![3], RootKind { code: 8 });
    let packets = ScheduleSanityGC::new().do_work(&checker);
    assert_eq!(packets.len(), 4);
    assert_eq!(packets[0].0, WorkBucketStage::Closure);
    match &packets[0].1 {
        SanityPacket::ProcessEdges(w) => {
            assert_eq!(w.slots, vec![1, 2]);
            assert!(w.roots);
            assert_eq!(w.root_kind, Some(RootKind { code: 7 }));
        }
        _ => panic!("not a trace"),
    }
    assert_eq!(packets[2].0, WorkBucketStage::Prepare);
    assert!(matches!(packets[2].1, SanityPacket::Prepare(_)));
    assert_eq!(packets[3].0, WorkBucketStage::Release);
    assert!(matches!(packets[3].1, SanityPacket::Release(_)));
    checker.add_root_nodes(vec![obj(A)]);
    checker.clear_roots_cache();
    assert!(checker.root_slots.is_empty());
    assert!(checker.root_nodes.is_empty());
}

#[test]
fn epochs_begin_again_at_one() {
    let mut state = SanityState::new();
    let mut checker = SanityChecker::new();
    checker.refs.insert(5);
    state.live_size_ix = 9;
    let mut seen = Vec::new();
    for _ in 0..17 {
        SanityPrepare::new().do_work(&mut state, &mut checker);
        seen.push(state.mark_state);
    }
    assert_eq!(seen, vec![1, 2, 3, 4, 5, 6, 7, 8, 9, 10, 11, 12, 13, 14, 15, 1, 2]);
    assert!(checker.refs.is_empty());
    assert_eq!(state.live_size_ix, 0);
}

#[test]
fn object_is_checked_and_scanned_once() {
    let (heap, mut lxr, mut state) = setup();
    lxr.rc_sanity_objects.push((obj(B), 0));
    lxr.rc_sanity_objects.push((obj(A), 255));
    let mut w = SanityGCProcessEdges::new(vec![], false);
    assert_eq!(w.process_slot(A + 8, &good(), &heap, &mut lxr, &mut state), Ok(()));
    assert_eq!(w.nodes, vec![obj(B)]);
    assert_eq!(w.edge, Some(A + 8));
    assert_eq!(w.process_slot(A + 8, &good(), &heap, &mut lxr, &mut state), Ok(()));
    assert_eq!(w.nodes, vec![obj(B)]);
    assert_eq!(lxr.rc_sanity_objects, vec![(obj(B), 2), (obj(A), 255)]);
    // A slot that holds nothing leads nowhere.
    assert_eq!(w.process_slot(B + 8, &good(), &heap, &mut lxr, &mut state), Ok(()));
    assert_eq!(w.nodes.len(), 1);
    assert_eq!(w.trace_object(obj(A), &good(), &mut lxr, &mut state), Ok(obj(A)));
    assert_eq!(w.nodes, vec![obj(B), obj(A)]);
    assert_eq!(lxr.rc_sanity_objects[1], (obj(A), 255));
    let scan = w.create_scan_work(vec![obj(A)]);
    assert_eq!(scan.buffer, vec![obj(A)]);
    assert!(!scan.discovery);
    assert_eq!(scan.bucket, WorkBucketStage::Closure);
}

#[test]
fn what_can_be_wrong_with_an_object() {
    let check = |facts: ObjectFacts, change: &dyn Fn(&mut Lxr)| {
        let (heap, mut lxr, mut state) = setup();
        change(&mut lxr);
        let mut w = SanityGCProcessEdges::new(vec![], false);
        let r = w.process_slot(A + 8, &facts, &heap, &mut lxr, &mut state);
        assert!(r.is_ok() || w.nodes.is_empty());
        r
    };
    let o = obj(B);
    let none = |_: &mut Lxr| {};
    assert_eq!(check(good(), &none), Ok(()));
    assert_eq!(
        check(good(), &|l| l.tables.field_unlog.store(A + 8, 0)),
        Err(SanityError::Logged(o))
    );
    assert_eq!(
        check(ObjectFacts { edge_mapped: false, ..good() }, &|l| l
            .tables
            .field_unlog
            .store(A + 8, 0)),
        Ok(())
    );
    assert_eq!(check(ObjectFacts { is_sane: false, ..good() }, &none), Err(SanityError::Insane(o)));
    assert_eq!(
        check(ObjectFacts { is_mapped: false, ..good() }, &none),
        Err(SanityError::Unmapped(o))
    );
    assert_eq!(
        check(good(), &|l| l.set_strong_count(o, 0)),
        Err(SanityError::NoStrongReference(o))
    );
    assert_eq!(
        check(good(), &|l| {
            l.set_strong_count(o, 0);
            l.set_candidate_status(o, 1);
        }),
        Ok(())
    );
    assert_eq!(
        check(good(), &|l| l.set_strong_count(o, 3)),
        Err(SanityError::StrongExceedsCount(o))
    );
    assert_eq!(
        check(ObjectFacts { first_word: DEAD_WORD, ..good() }, &none),
        Err(SanityError::Killed(o))
    );
    assert_eq!(
        check(good(), &|l| {
            l.set_strong_count(o, 0);
            l.set_candidate_status(o, 1);
            l.rc.set(&mut l.tables, o, 0);
        }),
        Err(SanityError::ZeroCount(o))
    );
    assert_eq!(
        check(ObjectFacts { is_forwarded: true, ..good() }, &none),
        Err(SanityError::Forwarded(o))
    );
    assert_eq!(
        check(ObjectFacts { block_unallocated: true, ..good() }, &none),
        Err(SanityError::BlockReleased(o))
    );
    assert_eq!(
        check(ObjectFacts { block_unallocated: true, in_immix_space: false, ..good() }, &none),
        Ok(())
    );
    assert_eq!(check(good(), &|l| l.current_pause = None), Err(SanityError::NoPause(o)));
    let unmarked = ObjectFacts { is_marked: false, ..good() };
    assert_eq!(check(unmarked, &none), Ok(()));
    for pause in [Pause::FinalMark, Pause::Full] {
        assert_eq!(
            check(unmarked, &|l| l.current_pause = Some(pause)),
            Err(SanityError::NotMarked(o))
        );
    }
}

#[test]
fn live_sizes() {
    let (mut heap, _, mut state) = setup();
    heap.add_object(ObjectInfo {
        object: obj(0x10_0000),
        size: 0x1_0000,
        slots: vec![],
        is_obj_array: false,
        in_immix_space: false,
    });
    let mut w = SanityGCProcessEdges::new(vec![], false);
    for o in [A, B, A, 0x10_0000] {
        assert_eq!(w.trace_object_for_analysis(obj(o), &heap, &mut state), obj(o));
    }
    assert_eq!(state.live_size_ix, 128);
    assert_eq!(state.live_size_los, 0x1_0000);
    assert_eq!(w.nodes, vec![obj(A), obj(B), obj(0x10_0000)]);
}

#[test]
fn release_checks_counts_blocks_and_large_objects() {
    let blocks = vec![Block { start: 0x8000 }];
    let large = vec![obj(0x10_0000)];
    let run = |change: &dyn Fn(&mut Heap, &mut Lxr)| {
        let (mut heap, mut lxr, _) = setup();
        lxr.rc.set(&mut lxr.tables, obj(0x10_0000), 2);
        lxr.set_strong_count(obj(0x10_0000), 1);
        lxr.rc_sanity_objects.push((obj(A), 1));
        change(&mut heap, &mut lxr);
        let mut checker = SanityChecker::new();
        checker.add_root_slots(vec![1], RootKind { code: 1 });
        let r = SanityRelease::new().do_work(&heap, &mut lxr, &blocks, &large, &mut checker);
        (r, lxr.rc_sanity_objects.len(), checker.root_slots.len())
    };
    assert_eq!(run(&|_, _| {}), (Ok(()), 0, 0));
    assert_eq!(
        run(&|_, l| l.rc_sanity_objects.push((obj(B), 3))),
        (Err(SanityError::CountTooLow(obj(B))), 2, 1)
    );
    // A saturated count says nothing.
    assert_eq!(
        run(&|_, l| {
            l.rc_sanity_objects.push((obj(B), 255));
            l.rc.set(&mut l.tables, obj(B), 255);
        }),
        (Ok(()), 0, 0)
    );
    assert_eq!(
        run(&|_, l| l.set_strong_count(obj(B), 0)),
        (Err(SanityError::NoStrongReference(obj(B))), 1, 1)
    );
    let last = 0x8000 + 0x8000 - 16;
    assert_eq!(
        run(&|h, l| {
            add(h, last, 32);
            l.rc.set(&mut l.tables, obj(last), 2);
            l.set_strong_count(obj(last), 1);
        }),
        (Err(SanityError::OverrunsBlock(obj(last))), 1, 1)
    );
    assert_eq!(
        run(&|_, l| l.rc.set(&mut l.tables, obj(0x10_0000), 0)),
        (Err(SanityError::ZeroCount(obj(0x10_0000))), 0, 1)
    );
    assert_eq!(
        run(&|_, l| l.set_strong_count(obj(0x10_0000), 0)),
        (Err(SanityError::NoStrongReference(obj(0x10_0000))), 0, 1)
    );
    // The walk goes on behind an object whatever its size is.
    assert_eq!(
        run(&|h, l| {
            add(h, 0x9000, 20);
            l.rc.set(&mut l.tables, obj(0x9000), 2);
            l.set_strong_count(obj(0x9000), 1);
        }),
        (Ok(()), 0, 0)
    );
    // The start of a line that an earlier object covers is no object.
    assert_eq!(
        run(&|h, l| {
            add(h, 0x9000, 0x300);
            l.rc.set(&mut l.tables, obj(0x9000), 2);
            l.set_strong_count(obj(0x9000), 1);
            l.rc.mark_straddle_object(&mut l.tables, h, obj(0x9000));
        }),
        (Ok(()), 0, 0)
    );
}

#[test]
fn block_that_can_be_walked() {
    let work = SanityRelease::new();
    let (mut heap, mut lxr, _) = setup();
    assert!(work.can_walk(&heap, &lxr, Block { start: 0x8000 }));
    assert!(!work.can_walk(&heap, &lxr, Block { start: 0x8010 }));
    // A counted object that the heap does not know.
    lxr.rc.set(&mut lxr.tables, obj(0x9000), 1);
    assert!(!work.can_walk(&heap, &lxr, Block { start: 0x8000 }));
    // One without a size.
    add(&mut heap, 0x9000, 0);
    assert!(!work.can_walk(&heap, &lxr, Block { start: 0x8000 }));
    // The walk ends before it.
    lxr.set_strong_count(obj(B), 0);
    assert!(work.can_walk(&heap, &lxr, Block { start: 0x8000 }));
}

#[test]
fn valid_object_bit_is_looked_at_every_time() {
    let (heap, mut lxr, mut state) = setup();
    let mut w = SanityGCProcessEdges::new(vec![], false);
    let set = ObjectFacts { vo_bit: Some(true), ..good() };
    let unset = ObjectFacts { vo_bit: Some(false), ..good() };
    let mut trace = |facts: &ObjectFacts| {
        let r = w.process_slot(A + 8, facts, &heap, &mut lxr, &mut state);
        (r, w.nodes.len())
    };
    assert_eq!(trace(&unset), (Err(SanityError::NoVoBit(obj(B))), 1));
    assert_eq!(trace(&unset), (Err(SanityError::NoVoBit(obj(B))), 1));
    assert_eq!(trace(&set), (Ok(()), 1));
}
