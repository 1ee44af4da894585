use lxr_core::plan::immix::Pause;
use lxr_core::plan::lxr::overflow_rc_cache::RefCountWithOverflow;
use lxr_core::plan::lxr::rc_path_stats::RcPathStats;
use lxr_core::plan::lxr::stack::ChunkedStack;
use lxr_core::util::address::{Block, Line, ObjectReference};
use lxr_core::util::rc::{RcTables, RefCountHelper, MAX_REF_COUNT, MAX_STRONG_REF_COUNT};
use lxr_core::vm::heap::{Heap, ObjectInfo};

fn obj(addr: usize) -> ObjectReference {
    ObjectReference::from_raw_address(addr)
}

fn heap_with(addr: usize, size: usize) -> Heap {
    let mut heap = Heap::new();
    heap.add_object(ObjectInfo {
        object: obj(addr),
        size,
        slots: vec![],
        is_obj_array: false,
        in_immix_space: true,
    });
    heap
}

#[test]
fn counts_go_up_and_down() {
    let mut t = RcTables::new();
    let rc = RefCountHelper;
    let o = obj(0x1000);
    assert!(rc.is_dead(&t, o));
    assert_eq!(rc.inc(&mut t, o), Ok(0));
    assert_eq!(rc.inc(&mut t, o), Ok(1));
    assert_eq!(rc.count(&t, o), 2);
    // Another granule has its own count, another byte of the granule has not.
    assert_eq!(rc.count(&t, obj(0x1010)), 0);
    assert_eq!(rc.count(&t, obj(0x1008)), 2);
    assert_eq!(rc.dec(&mut t, o), Ok(2));
    assert_eq!(rc.dec(&mut t, o), Ok(1));
    assert_eq!(rc.dec(&mut t, o), Err(0));
    assert!(rc.object_or_line_is_dead(&t, o));
}

#[test]
fn saturated_count_is_stuck() {
    let mut t = RcTables::new();
    let rc = RefCountHelper;
    let o = obj(0x1000);
    rc.set(&mut t, o, MAX_REF_COUNT - 1);
    assert_eq!(rc.inc(&mut t, o), Ok(254));
    assert!(rc.is_stuck(&t, o));
    assert!(rc.is_dead_or_stuck(&t, o));
    assert_eq!(rc.inc(&mut t, o), Err(255));
    assert_eq!(rc.dec(&mut t, o), Err(255));
    assert_eq!(rc.dec_unconditionally(&mut t, o), 255);
    assert_eq!(rc.count(&t, o), 254);
    assert_eq!(rc.stick(&mut t, o), Ok(254));
    assert_eq!(rc.stick(&mut t, o), Err(255));
    assert_eq!(rc.inc_exclusive(&mut t, o), 255);
    assert_eq!(rc.dec_exclusive(&mut t, o), 255);
    assert_eq!(rc.dec_unconditionally_exclusive(&mut t, o), 255);
    assert_eq!(rc.inc_exclusive(&mut t, o), 254);
    rc.set_relaxed(&mut t, o, 0);
    assert_eq!(rc.dec_exclusive(&mut t, o), 0);
    assert_eq!(rc.count(&t, o), 0);
}

#[test]
fn fetch_update_applies_the_function() {
    let mut t = RcTables::new();
    let rc = RefCountHelper;
    let o = obj(0x40);
    assert_eq!(rc.fetch_update(&mut t, o, |x| Some(x + 7)), Ok(0));
    assert_eq!(rc.fetch_update(&mut t, o, |_| None), Err(7));
    assert_eq!(rc.count(&t, o), 7);
}

#[test]
fn strong_counts_saturate() {
    let mut t = RcTables::new();
    let rc = RefCountHelper;
    let o = obj(0x1000);
    assert_eq!(rc.strong_rc_dec(&mut t, o), Err(0));
    for i in 0..MAX_STRONG_REF_COUNT {
        assert_eq!(rc.strong_rc_inc(&mut t, o), Ok(i));
    }
    assert_eq!(rc.strong_rc_inc(&mut t, o), Err(15));
    assert_eq!(rc.strong_rc_inc_exclusive(&mut t, o), 15);
    assert_eq!(rc.strong_rc_dec(&mut t, o), Ok(15));
    assert_eq!(rc.strong_rc_dec_exclusive(&mut t, o), 14);
    assert_eq!(t.strong_rc.load(0x100), 13);
}

#[test]
fn size_of_increment_buffers() {
    let mut t = RcTables::new();
    let rc = RefCountHelper;
    rc.increase_inc_buffer_size(&mut t, 5);
    rc.increase_inc_buffer_size(&mut t, 7);
    assert_eq!(rc.inc_buffer_size(&t), 12);
    rc.reset_inc_buffer_size(&mut t);
    assert_eq!(rc.inc_buffer_size(&t), 0);
}

#[test]
fn straddling_object_covers_lines() {
    let mut t = RcTables::new();
    let rc = RefCountHelper;
    // From the middle of line 16 into line 19.
    let heap = heap_with(0x1080, 0x300);
    let o = obj(0x1080);
    rc.promote(&mut t, &heap, o);
    for (line, covered) in [(16, false), (17, true), (18, true), (19, false)] {
        assert_eq!(rc.is_straddle_line(&t, Line { index: line }), covered);
        assert_eq!(rc.address_is_in_straddle_line(&t, line * 256), covered);
    }
    assert!(!rc.address_is_in_straddle_line(&t, 17 * 256 + 16));
    assert_eq!(rc.rc_table_range(&t, Block { start: 0 })[0x110], 1);
    assert!(!rc.assert_zero_ref_count(&t, &heap, o));
    rc.unmark_straddle_object(&mut t, &heap, o);
    assert!(!rc.is_straddle_line(&t, Line { index: 17 }));
    assert!(rc.assert_zero_ref_count(&t, &heap, o));
    rc.mark_straddle_object(&mut t, &heap, o);
    assert!(rc.is_straddle_line(&t, Line { index: 18 }));
}

#[test]
fn small_object_covers_no_line() {
    let mut t = RcTables::new();
    let rc = RefCountHelper;
    let heap = heap_with(0x10f0, 0x100);
    rc.promote(&mut t, &heap, obj(0x10f0));
    assert!(!rc.is_straddle_line(&t, Line { index: 17 }));
    rc.unmark_straddle_object(&mut t, &heap, obj(0x10f0));
    assert!(!rc.is_straddle_line(&t, Line { index: 17 }));
}

#[test]
fn counts_over_the_limit() {
    let mut t = RcTables::new();
    let mut rc = RefCountWithOverflow::new();
    let o = obj(0x2000);
    for i in 0..300u64 {
        assert_eq!(rc.get(&t, o), i);
        assert_eq!(if i % 2 == 0 { rc.inc(&mut t, o) } else { rc.inc_exclusive(&mut t, o) }, i);
    }
    assert_eq!(rc.get(&t, o), 300);
    assert_eq!(rc.num_entries(), 1);
    assert_eq!(t.overflow_rc.load(0x200), 45);
    assert!(rc.is_alive(&t, o));
    for i in (1..=300u64).rev() {
        assert_eq!(if i % 3 == 0 { rc.dec(&mut t, o) } else { rc.dec_exclusive(&mut t, o) }, i);
    }
    assert_eq!(rc.get(&t, o), 0);
    assert_eq!(rc.num_entries(), 0);
    assert_eq!(t.overflow_rc.load(0x200), 0);
    assert!(!rc.is_alive(&t, o));
}

#[test]
fn operations_are_counted_by_their_path() {
    let mut t = RcTables::new();
    let mut rc = RefCountWithOverflow::new();
    let mut paths = RcPathStats::new();
    let o = obj(0x2000);
    // The table takes the counts up to its limit.
    for i in 0..300u64 {
        assert_eq!(rc.get_counted(&t, o, &mut paths), i);
        let prev = if i % 2 == 0 {
            rc.inc_counted(&mut t, o, &mut paths)
        } else {
            rc.inc_exclusive_counted(&mut t, o, &mut paths)
        };
        assert_eq!(prev, i);
    }
    assert_eq!((paths.inc_fast, paths.inc_slow), (255, 45));
    assert_eq!((paths.get_fast, paths.get_slow), (255, 45));
    assert_eq!((paths.dec_fast, paths.dec_slow), (0, 0));
    for i in (1..=300u64).rev() {
        let prev = if i % 3 == 0 {
            rc.dec_counted(&mut t, o, &mut paths)
        } else {
            rc.dec_exclusive_counted(&mut t, o, &mut paths)
        };
        assert_eq!(prev, i);
    }
    assert_eq!((paths.dec_fast, paths.dec_slow), (254, 46));
    assert_eq!((paths.inc_fast, paths.inc_slow), (255, 45));
}

#[test]
fn excess_is_kept_by_granule() {
    let mut t = RcTables::new();
    let mut rc = RefCountWithOverflow::new();
    for _ in 0..256 {
        rc.inc(&mut t, obj(0x2000));
        rc.inc(&mut t, obj(0x3000));
    }
    assert_eq!(rc.num_entries(), 2);
    assert_eq!(rc.dec(&mut t, obj(0x2000)), 256);
    assert_eq!(rc.num_entries(), 1);
    assert_eq!(rc.get(&t, obj(0x3000)), 256);
}

#[test]
fn lines_and_blocks() {
    assert_eq!(Line::containing(0x1ff).index, 1);
    assert_eq!(Line::containing(0x1ff).start(), 0x100);
    assert!(Line::is_aligned(0x200));
    assert!(!Line::is_aligned(0x210));
    assert_eq!(Block::containing(0xffff).start, 0x8000);
    assert_eq!(obj(0x20).to_raw_address(), 0x20);
}

#[test]
fn numbers_of_pauses() {
    let all = [
        Pause::Full,
        Pause::FullDefrag,
        Pause::RefCount,
        Pause::InitialMark,
        Pause::FinalMark,
        Pause::FullRC,
    ];
    for (i, p) in all.iter().enumerate() {
        assert_eq!(p.code() as usize, i + 1);
    }
}

#[test]
fn stack_gives_back_in_reverse() {
    let mut stack = ChunkedStack::with_chunk_cap(3);
    assert!(stack.is_empty());
    assert_eq!(stack.pop(), None);
    for i in 0..10 {
        stack.push(i);
        assert_eq!(stack.last(), Some(&i));
    }
    assert_eq!(stack.len(), 10);
    for i in (0..10).rev() {
        assert_eq!(stack.pop(), Some(i));
    }
    assert!(stack.is_empty());
    assert_eq!(stack.last(), None);
    let mut usual = ChunkedStack::new();
    for i in 0..5000 {
        usual.push(i);
    }
    assert_eq!(usual.len(), 5000);
    assert_eq!(usual.pop(), Some(4999));
}
