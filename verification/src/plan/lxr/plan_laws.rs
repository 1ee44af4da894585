//! How a cycle collection changes the plan.

use crate::plan::lxr::buffer;
use crate::plan::lxr::cycle_model;
use crate::plan::lxr::cycle_model::{CycleState, Snapshot, Walk};
use crate::plan::lxr::cycle_phases;
use crate::plan::lxr::cycle_stats::CycleCollectorStats;
use crate::plan::lxr::gc_work;
use crate::plan::lxr::gc_work::CycleCollector;
use crate::plan::lxr::global;
use crate::plan::lxr::global::Lxr;
use crate::plan::lxr::readiness;
use crate::util::address::{Block, ObjectReference};
use crate::vm::heap::Heap;
use vstd::prelude::*;

verus! {

/// Cycle collection works on the tables of counts, strong counts, colours, tags,
/// straddled lines and dead objects, on the lists of the dead, and on the numbers.
pub proof fn collection_works_on_tables(lxr: Lxr)
    ensures
        ({
            let s = lxr.cycle_state();
            &&& s.counts.rc == lxr.tables.rc@
            &&& s.counts.excess == lxr.tables.overflow_rc@
            &&& s.overflowed == lxr.rc_with_overflow.overflowed
            &&& s.strong == lxr.tables.strong_rc@
            &&& s.color == lxr.tables.obj_color@
            &&& s.cand == lxr.tables.candidates_status@
            &&& s.straddle == lxr.tables.rc_straddle_lines@
            &&& s.dead_cycles == lxr.tables.sanity_dead_cycle_count@
            &&& s.overwritten == lxr.overwritten_objects@
            &&& s.dead_blocks.len() == lxr.possibly_dead_mature_blocks@.len()
            &&& forall|i: int|
                #![trigger s.dead_blocks[i]]
                0 <= i < s.dead_blocks.len() ==> s.dead_blocks[i]
                    == lxr.possibly_dead_mature_blocks@[i].start
            &&& s.freed_large == lxr.freed_large_objects@
            &&& s.freed == lxr.graph_reporter.cycle_collector_freed@
            &&& s.dead == lxr.stat
        }),
{
}

/// While a collection works, the heap, the unlog bits and what was recorded of
/// logged slots stay, and new candidates carry the number of the current pool plus
/// one.
pub proof fn surroundings_stay(lxr: Lxr, heap: Heap)
    ensures
        lxr.snapshot(heap).heap == heap,
        lxr.snapshot(heap).unlog == lxr.tables.field_unlog@,
        lxr.snapshot(heap).satb == lxr.satb_map@,
        lxr.curr_vec < 3 ==> lxr.snapshot(heap).tag == lxr.curr_vec + 1,
        lxr.current_pool() == lxr.candidate_pools@[lxr.curr_vec as int],
        lxr.wf() <==> lxr.tables.wf() && lxr.candidate_pools@.len() == 3 && lxr.curr_vec <= 2,
{
}

/// Whether two plans agree in everything that no cycle collection changes.
pub open spec fn rest_stays(old: Lxr, new: Lxr) -> bool {
    &&& new.tables.field_unlog == old.tables.field_unlog
    &&& new.tables.inc_buffer_size == old.tables.inc_buffer_size
    &&& new.curr_vec == old.curr_vec
    &&& new.satb_map == old.satb_map
    &&& new.current_pause == old.current_pause
    &&& new.inc_packets == old.inc_packets
    &&& new.lazy_dec_packets == old.lazy_dec_packets
    &&& new.stw_dec_packets == old.stw_dec_packets
    &&& new.lazy_decrements == old.lazy_decrements
    &&& new.rc_sanity_objects == old.rc_sanity_objects
    &&& new.counters == old.counters
    &&& new.takerate_measurement == old.takerate_measurement
    &&& new.inside_harness == old.inside_harness
}

/// What the steps of a collection leave as it was: beside what a collection works
/// on, only the pool that takes new candidates changes during a step, and only the
/// pools and the reports during a whole collection.
pub proof fn collection_leaves_the_rest(old: Lxr, new: Lxr)
    ensures
        new.same_but_cycle_state(old) ==> rest_stays(old, new) && new.candidate_pools
            == old.candidate_pools && new.in_cycle_collection == old.in_cycle_collection
            && new.graph_report_mark == old.graph_report_mark && new.finished_reports
            == old.finished_reports && new.graph_reporter.objects == old.graph_reporter.objects
            && new.graph_reporter.candidates == old.graph_reporter.candidates
            && new.graph_reporter.roots == old.graph_reporter.roots && new.graph_reporter.allocated
            == old.graph_reporter.allocated && new.graph_reporter.rc_freed
            == old.graph_reporter.rc_freed,
        new.same_but_candidates(old) ==> rest_stays(old, new) && new.in_cycle_collection
            == old.in_cycle_collection && new.finished_reports == old.finished_reports
            && new.candidate_pools@.len() == old.candidate_pools@.len() && (forall|i: int|
            #![trigger new.candidate_pools@[i]]
            0 <= i < old.candidate_pools@.len() && i != old.curr_vec ==> new.candidate_pools@[i]
                == old.candidate_pools@[i]),
        new.same_but_collection(old) ==> rest_stays(old, new),
{
}

/// The next pool comes behind the current one, and the first behind the last.
pub proof fn pools_go_round(curr: u8, i: int)
    requires
        curr < 3,
        0 <= i < 3,
    ensures
        curr < 2 ==> gc_work::next_pool(curr) == curr + 1,
        curr == 2 ==> gc_work::next_pool(curr) == 0,
        gc_work::visited_pool(curr, 0) == gc_work::next_pool(curr),
        gc_work::visited_pool(curr, i) == (if curr + i + 1 < 3 {
            curr + i + 1
        } else {
            curr + i - 2
        }),
        gc_work::filled_pool(curr, i) == (if curr + i < 3 {
            curr + i
        } else {
            curr + i - 3
        }),
{
}

/// While the candidates of a pool are marked from in a collection of all pools, new
/// ones carry the number of the pool before it plus one.
pub proof fn rounds_have_their_tags(c: Snapshot, curr: u8, i: int)
    requires
        curr < 3,
        0 <= i < 3,
    ensures
        gc_work::round_snapshot(c, curr, i).tag == gc_work::filled_pool(curr, i) + 1,
        gc_work::round_snapshot(c, curr, i).heap == c.heap,
        gc_work::round_snapshot(c, curr, i).unlog == c.unlog,
        gc_work::round_snapshot(c, curr, i).satb == c.satb,
{
}

/// What each phase of the collection of one pool begins with, and what it counts:
/// the candidates that were drained, those that were marked from, the objects that
/// each phase visited, and the slots that were logged meanwhile.
pub proof fn pool_collection_has_three_phases(
    c: Snapshot,
    s: CycleState,
    buffers: Seq<Seq<ObjectReference>>,
    tag: u8,
    stats: CycleCollectorStats,
)
    ensures
        ({
            let r = gc_work::collect_pool(c, s, buffers, tag, stats);
            let m = cycle_phases::mark_buffers(
                c,
                tag,
                cycle_phases::buffers_from(s, buffers, stats.objects_in_mark),
            );
            let left = m.buffers.flatten();
            let sc = cycle_phases::scan_each(
                c,
                cycle_phases::carry(m.s, stats.objects_in_scan, stats.objects_in_scan_black),
                left,
            );
            let co = cycle_phases::collect_each(
                c,
                cycle_phases::carry(sc.s, stats.objects_in_collect, 0),
                left,
            );
            &&& r.s == co.s
            &&& r.mark_out == m.out
            &&& r.collect_out == co.out
            &&& buffers.flatten().len() <= usize::MAX ==> r.stats.raw_cycle_candidates
                == buffers.flatten().len()
            &&& left.len() <= usize::MAX ==> r.stats.candidates_after_filter == left.len()
            &&& r.stats.objects_in_mark == m.visited
            &&& r.stats.objects_in_scan == sc.visited
            &&& r.stats.objects_in_scan_black == sc.nested
            &&& r.stats.objects_in_collect == co.visited
            &&& c.satb.len() <= usize::MAX ==> r.stats.satb_map_size == c.satb.len()
            &&& r.stats.satb_reads == stats.satb_reads
        }),
{
}

/// The collection of all pools marks from the candidates of one pool after the
/// other, each with its tag, before it scans any, and scans all before it collects
/// any.
pub proof fn full_collection_has_three_phases(
    lxr: Lxr,
    heap: Heap,
    d: (Seq<Seq<ObjectReference>>, Seq<Seq<ObjectReference>>, Seq<Seq<ObjectReference>>),
    stats: CycleCollectorStats,
)
    requires
        lxr.curr_vec < 3,
    ensures
        ({
            let r = gc_work::collect_all_pools(lxr, heap, d, stats);
            let c = lxr.snapshot(heap);
            let curr = lxr.curr_vec;
            let t0 = ((curr + 1) % 3 + 1) as u8;
            let t1 = ((curr + 2) % 3 + 1) as u8;
            let t2 = (curr + 1) as u8;
            let m0 = cycle_phases::mark_buffers(
                Snapshot { tag: t2, ..c },
                t0,
                cycle_phases::buffers_from(
                    CycleState { freed: Seq::empty(), ..lxr.cycle_state() },
                    d.0,
                    stats.objects_in_mark,
                ),
            );
            let m1 = cycle_phases::mark_buffers(
                Snapshot { tag: t0, ..c },
                t1,
                cycle_phases::buffers_from(m0.s, d.1, m0.visited),
            );
            let m2 = cycle_phases::mark_buffers(
                Snapshot { tag: t1, ..c },
                t2,
                cycle_phases::buffers_from(m1.s, d.2, m1.visited),
            );
            let left = m0.buffers.flatten() + m1.buffers.flatten() + m2.buffers.flatten();
            let sc = cycle_phases::scan_each(
                c,
                cycle_phases::carry(m2.s, stats.objects_in_scan, stats.objects_in_scan_black),
                left,
            );
            let co = cycle_phases::collect_each(
                c,
                cycle_phases::carry(sc.s, stats.objects_in_collect, 0),
                left,
            );
            let raw = d.0.flatten().len() + d.1.flatten().len() + d.2.flatten().len();
            &&& r.s == co.s
            &&& r.mark_out == (m0.out, m1.out, m2.out)
            &&& r.collect_out == co.out
            &&& raw <= usize::MAX ==> r.stats.raw_cycle_candidates == raw
            &&& left.len() <= usize::MAX ==> r.stats.candidates_after_filter == left.len()
            &&& r.stats.objects_in_mark == m2.visited
            &&& r.stats.objects_in_scan == sc.visited
            &&& r.stats.objects_in_scan_black == sc.nested
            &&& r.stats.objects_in_collect == co.visited
            &&& c.satb.len() <= usize::MAX ==> r.stats.satb_map_size == c.satb.len()
            &&& r.stats.satb_reads == stats.satb_reads
        }),
{
    let c = lxr.snapshot(heap);
    let curr = lxr.curr_vec;
    pools_go_round(curr, 0);
    pools_go_round(curr, 1);
    pools_go_round(curr, 2);
    assert(gc_work::round_snapshot(c, curr, 0) == Snapshot { tag: (curr + 1) as u8, ..c });
    assert(gc_work::round_snapshot(c, curr, 1) == Snapshot {
        tag: ((curr + 1) % 3 + 1) as u8,
        ..c
    });
    assert(gc_work::round_snapshot(c, curr, 2) == Snapshot {
        tag: ((curr + 2) % 3 + 1) as u8,
        ..c
    });
}

/// After the collection of one pool that pool is drained, the current one has also
/// what became a candidate, first while marking and then while collecting, and the
/// third is as it was.
pub proof fn one_pool_is_drained(
    old_cc: CycleCollector,
    new_cc: CycleCollector,
    old: Lxr,
    new: Lxr,
    heap: Heap,
)
    requires
        old.curr_vec < 3,
        gc_work::collected_one_pool(old_cc, new_cc, old, new, heap),
    ensures
        ({
            let curr = old.curr_vec as int;
            let next = (curr + 1) % 3;
            let last = (curr + 2) % 3;
            let b = old.candidate_pools@[next]@.completed + old.candidate_pools@[next]@.available;
            let r = gc_work::collect_pool(
                old.snapshot(heap),
                CycleState { freed: Seq::empty(), ..old.cycle_state() },
                b,
                (next + 1) as u8,
                old_cc.stats,
            );
            let pool = new.candidate_pools@[curr]@;
            &&& new.cycle_state() == r.s
            &&& new_cc.stats == r.stats
            &&& new.candidate_pools@[next]@.completed.len() == 0
            &&& new.candidate_pools@[next]@.available.len() == 0
            &&& new.candidate_pools@[next]@.capacity == old.candidate_pools@[next]@.capacity
            &&& pool == old.candidate_pools@[curr]@.acquire().push_all(
                r.mark_out + r.collect_out,
            ).close()
            &&& new.candidate_pools@[last] == old.candidate_pools@[last]
            &&& gc_work::wrote_report(old, new, heap, (next + 1) as u8, b.flatten())
            &&& new.finished_reports@.len() == old.finished_reports@.len() + 1
            &&& new.graph_reporter.objects@.len() == 0
            &&& new.graph_reporter.candidates@.len() == 0
        }),
{
    pools_go_round(old.curr_vec, 0);
}

/// After the collection of all pools each pool was drained and has what became a
/// candidate while the candidates of the pool behind it were marked from; the
/// current one also what became one while collecting.
pub proof fn all_pools_are_drained(
    old_cc: CycleCollector,
    new_cc: CycleCollector,
    old: Lxr,
    new: Lxr,
    heap: Heap,
)
    requires
        old.curr_vec < 3,
        gc_work::collected_all_pools(old_cc, new_cc, old, new, heap),
    ensures
        ({
            let curr = old.curr_vec as int;
            let (p0, p1, p2) = (curr, (curr + 1) % 3, (curr + 2) % 3);
            let pools = old.candidate_pools@;
            let d = (
                pools[p1]@.completed + pools[p1]@.available,
                pools[p2]@.completed + pools[p2]@.available,
                pools[p0]@.completed + pools[p0]@.available,
            );
            let r = gc_work::collect_all_pools(old, heap, d, old_cc.stats);
            let e0 = buffer::PoolView {
                completed: Seq::<Seq<ObjectReference>>::empty(),
                available: Seq::<Seq<ObjectReference>>::empty(),
                ..pools[p0]@
            };
            let e1 = buffer::PoolView {
                completed: Seq::<Seq<ObjectReference>>::empty(),
                available: Seq::<Seq<ObjectReference>>::empty(),
                ..pools[p1]@
            };
            let e2 = buffer::PoolView {
                completed: Seq::<Seq<ObjectReference>>::empty(),
                available: Seq::<Seq<ObjectReference>>::empty(),
                ..pools[p2]@
            };
            &&& new.cycle_state() == r.s
            &&& new_cc.stats == r.stats
            &&& new.candidate_pools@[p0]@ == e0.acquire().push_all(
                r.mark_out.0,
            ).close().acquire().push_all(r.collect_out).close()
            &&& new.candidate_pools@[p1]@ == e1.acquire().push_all(r.mark_out.1).close()
            &&& new.candidate_pools@[p2]@ == e2.acquire().push_all(r.mark_out.2).close()
            &&& gc_work::wrote_all_reports(old, new, heap, d)
            &&& new.finished_reports@.len() == old.finished_reports@.len() + 3
            &&& new.graph_reporter.objects@.len() == 0
            &&& new.graph_reporter.candidates@.len() == 0
        }),
{
    pools_go_round(old.curr_vec, 0);
    pools_go_round(old.curr_vec, 1);
    pools_go_round(old.curr_vec, 2);
}

/// The candidates of the three pools, each in the heap, and not too many to be
/// counted: then the pools are ready. A collection can begin if also no object that
/// is not black has a logged slot.
pub proof fn collection_can_begin(lxr: Lxr, heap: Heap)
    requires
        heap.wf(),
        lxr.wf(),
    ensures
        gc_work::pools_ready(lxr, heap) <==> {
            let (p0, p1, p2) = (
                lxr.candidate_pools@[0]@,
                lxr.candidate_pools@[1]@,
                lxr.candidate_pools@[2]@,
            );
            let (d0, d1, d2) = (
                p0.completed + p0.available,
                p1.completed + p1.available,
                p2.completed + p2.available,
            );
            &&& p0.wf() && p1.wf() && p2.wf()
            &&& readiness::all_known(heap, d0) && readiness::all_known(heap, d1)
                && readiness::all_known(heap, d2)
            &&& d0.flatten().len() + d1.flatten().len() + d2.flatten().len() <= usize::MAX
        },
        readiness::is_ready(heap, lxr) <==> gc_work::pools_ready(lxr, heap) && (Snapshot {
            heap,
            unlog: lxr.tables.field_unlog@,
            satb: Map::empty(),
            tag: (lxr.curr_vec + 1) as u8,
        }).covers(lxr.tables.obj_color@),
{
    let c = lxr.snapshot(heap);
    let pools = lxr.candidate_pools@;
    assert forall|p: int| 0 <= p < 3 implies (cycle_phases::all_in_heap(
        c,
        gc_work::drained((#[trigger] pools[p])@),
    ) <==> readiness::all_known(heap, pools[p]@.completed + pools[p]@.available)) by {
        same_knowledge(c, gc_work::drained(pools[p]@));
    }
    assert(pools[0] == pools[0] && pools[1] == pools[1] && pools[2] == pools[2]);
    if gc_work::pools_ready(lxr, heap) {
        assert(pools[0]@.wf() && pools[1]@.wf() && pools[2]@.wf());
    }
    assert((Snapshot { satb: Map::empty(), ..c }) == (Snapshot {
        heap,
        unlog: lxr.tables.field_unlog@,
        satb: Map::empty(),
        tag: (lxr.curr_vec + 1) as u8,
    }));
}

/// Every object of the buffers is in the heap: said in two ways.
proof fn same_knowledge(c: Snapshot, b: Seq<Seq<ObjectReference>>)
    ensures
        cycle_phases::all_in_heap(c, b) <==> readiness::all_known(c.heap, b),
        readiness::all_known(c.heap, b) <==> forall|i: int, j: int|
            0 <= i < b.len() && 0 <= j < b[i].len() ==> c.heap.contains(#[trigger] b[i][j]),
{
}

/// Each traversal begins at its object, with the state of the plan and the counter of
/// its phase.
pub proof fn traversals_begin_with_the_plan(
    cc: CycleCollector,
    heap: Heap,
    lxr: Lxr,
    o: ObjectReference,
)
    ensures
        ({
            let c = lxr.snapshot(heap);
            let s = lxr.cycle_state();
            let from = |n: usize, m: usize|
                Walk { s, stack: seq![o], out: Seq::empty(), visited: n, nested: m };
            &&& gc_work::marked(cc, heap, lxr, o) == cycle_model::mark_all(
                c,
                from(cc.stats.objects_in_mark, 0),
            )
            &&& gc_work::restored(cc, heap, lxr, o) == cycle_model::scan_black_all(
                c,
                from(cc.stats.objects_in_scan_black, 0),
            )
            &&& gc_work::scanned(cc, heap, lxr, o) == cycle_model::scan_all(
                c,
                from(cc.stats.objects_in_scan, cc.stats.objects_in_scan_black),
            )
            &&& gc_work::collected_black(cc, heap, lxr, o) == cycle_model::collect_blacks_all(
                c,
                from(cc.stats.objects_in_collect, 0),
            )
            &&& gc_work::collected(cc, heap, lxr, o) == cycle_model::collect_whites_all(
                c,
                from(cc.stats.objects_in_collect, 0),
            )
        }),
{
}

/// The list of reclaimed objects is empty when a collection begins, and nothing else
/// changes.
pub proof fn collection_begins_without_freed(s: CycleState)
    ensures
        gc_work::unreported(s).freed.len() == 0,
        gc_work::unreported(s) == (CycleState { freed: gc_work::unreported(s).freed, ..s }),
{
}

/// The blocks are seen as their first addresses.
pub proof fn blocks_are_seen_as_starts(blocks: Seq<Block>)
    ensures
        global::block_starts(blocks).len() == blocks.len(),
        forall|i: int|
            #![trigger global::block_starts(blocks)[i]]
            0 <= i < blocks.len() ==> global::block_starts(blocks)[i] == blocks[i].start,
{
}

} // verus!
