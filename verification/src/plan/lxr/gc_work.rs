//! Collection of garbage cycles by trial deletion.
//!
//! The work of one collection is done by one thread, while no other thread
//! counts references: what the traversals read from the tables is what they
//! left there.

use crate::plan::immix::Pause;
use crate::plan::lxr::buffer;
use crate::plan::lxr::buffer::{FinalBuffers, LocalBuffer};
use crate::plan::lxr::cycle_model;
use crate::plan::lxr::cycle_phases;
use crate::plan::lxr::cycle_model::{CycleState, DeadStats, Snapshot, Walk};
use crate::plan::lxr::cycle_phases::{BufferWalk, ReportWalk};
use crate::plan::lxr::cycle_stats::CycleCollectorStats;
use crate::plan::lxr::global::{Lxr, NUM_OF_CANDIDATES_VECTORS};
use crate::plan::lxr::graphs_project;
use crate::plan::lxr::graphs_project::GcCycleReport;
use crate::util::address::{granule, Block, ObjectReference};
use crate::util::rc::{
    RefCountHelper, BLACK_IN_STACK, BLACK_OUT_OF_STACK, GREY, LOGGED_VALUE, MAX_STRONG_REF_COUNT,
    STRONG_RC_LAST_BEFORE_ZERO, UNLOGGED_VALUE, WHITE,
};
use crate::vm::heap::Heap;
use vstd::prelude::*;

verus! {

/// The work of one cycle collection.
pub struct CycleCollector {
    /// Access to the reference counts.
    pub rc: RefCountHelper,
    /// Counters.
    pub stats: CycleCollectorStats,
}

impl DeadStats {
    /// Records one more object of `size` bytes, large if `large`.
    pub fn record(&mut self, size: usize, large: bool)
        ensures
            *final(self) == old(self).with(size, large),
    {
        self.dead_mature_objects = self.dead_mature_objects.wrapping_add(1);
        self.dead_mature_volume = self.dead_mature_volume.wrapping_add(size);
        self.dead_mature_rc_objects = self.dead_mature_rc_objects.wrapping_add(1);
        self.dead_mature_rc_volume = self.dead_mature_rc_volume.wrapping_add(size);
        if large {
            self.dead_mature_los_objects = self.dead_mature_los_objects.wrapping_add(1);
            self.dead_mature_los_volume = self.dead_mature_los_volume.wrapping_add(size);
            self.dead_mature_rc_los_objects = self.dead_mature_rc_los_objects.wrapping_add(1);
            self.dead_mature_rc_los_volume = self.dead_mature_rc_los_volume.wrapping_add(size);
        }
    }
}

/// Whether `o` is being restored, or was left for later.
fn in_stack(lxr: &Lxr, o: ObjectReference) -> (r: bool)
    ensures
        r == (lxr.cycle_state().color_of(o) == BLACK_IN_STACK),
{
    lxr.color(o) == BLACK_IN_STACK
}

/// Whether `o` is black.
fn is_black(lxr: &Lxr, o: ObjectReference) -> (r: bool)
    ensures
        r == lxr.cycle_state().is_black(o),
{
    lxr.color(o) <= BLACK_IN_STACK
}

impl CycleCollector {
    /// A collection that has not begun.
    pub fn new() -> (r: CycleCollector)
        ensures
            r.stats == (CycleCollectorStats {
                raw_cycle_candidates: 0,
                candidates_after_filter: 0,
                objects_in_mark: 0,
                objects_in_scan: 0,
                objects_in_scan_black: 0,
                objects_in_collect: 0,
                satb_map_size: 0,
                satb_reads: 0,
            }),
    {
        CycleCollector {
            rc: RefCountHelper,
            stats: CycleCollectorStats {
                raw_cycle_candidates: 0,
                candidates_after_filter: 0,
                objects_in_mark: 0,
                objects_in_scan: 0,
                objects_in_scan_black: 0,
                objects_in_collect: 0,
                satb_map_size: 0,
                satb_reads: 0,
            },
        }
    }

    /// The unlog bit of the slot.
    fn get_slot_logging_state(&self, lxr: &Lxr, slot: usize) -> (r: u8)
        ensures
            r == lxr.tables.field_unlog@[slot],
    {
        lxr.tables.field_unlog.load(slot)
    }

    /// What the slot held when the collection began.
    fn get_child(&self, heap: &Heap, lxr: &Lxr, slot: usize) -> (r: Option<ObjectReference>)
        requires
            heap.wf(),
            heap.fields@.dom().contains(slot),
            lxr.tables.field_unlog@[slot] == UNLOGGED_VALUE || lxr.satb_map@.dom().contains(slot),
        ensures
            r == lxr.snapshot(*heap).old_value(slot),
    {
        broadcast use vstd::std_specs::hash::group_hash_axioms;

        let child = heap.load(slot);
        if self.get_slot_logging_state(lxr, slot) == UNLOGGED_VALUE {
            return child;
        }
        match lxr.satb_map.get(&slot) {
            Some(v) => *v,
            None => None,
        }
    }

    /// Whether the candidate `o` of the pool with tag `vec_index` is to be
    /// marked from.
    fn should_mark(&self, lxr: &Lxr, o: ObjectReference, vec_index: u8) -> (r: bool)
        ensures
            r == cycle_phases::should_mark(lxr.cycle_state(), o, vec_index),
    {
        lxr.candidate_status(o) == vec_index && lxr.strong_count(o) == 0
    }

    /// Accounts for the dead object `o`. Returns whether it was a large one.
    fn process_dead_object(&self, o: ObjectReference, heap: &Heap, lxr: &mut Lxr) -> (r: bool)
        requires
            heap.wf(),
            heap.contains(o),
            old(lxr).wf(),
        ensures
            final(lxr).wf(),
            r == !heap.info(o).in_immix_space,
            final(lxr).cycle_state() == cycle_model::bury(*heap, old(lxr).cycle_state(), o),
            final(lxr).same_but_cycle_state(*old(lxr)),
    {
        let info = heap.get(o);
        lxr.stat.record(info.size, !info.in_immix_space);
        if info.in_immix_space {
            self.rc.unmark_straddle_object(&mut lxr.tables, heap, o);
        }
        lxr.tables.sanity_dead_cycle_count.store(granule(o.addr), 0);
        lxr.overwritten_objects.push(o);
        if info.in_immix_space {
            lxr.possibly_dead_mature_blocks.push(Block::containing(o.addr));
            assert(lxr.cycle_state() =~= cycle_model::bury(*heap, old(lxr).cycle_state(), o));
            false
        } else {
            lxr.freed_large_objects.push(o);
            assert(lxr.cycle_state() =~= cycle_model::bury(*heap, old(lxr).cycle_state(), o));
            true
        }
    }

    /// Reclaims the dead object `o`.
    fn reclaim_object(&self, o: ObjectReference, heap: &Heap, lxr: &mut Lxr)
        requires
            heap.wf(),
            heap.contains(o),
            old(lxr).wf(),
        ensures
            final(lxr).wf(),
            final(lxr).cycle_state() == cycle_model::reclaim(*heap, old(lxr).cycle_state(), o),
            final(lxr).same_but_cycle_state(*old(lxr)),
    {
        lxr.graph_reporter.add_cycle_collector_freed(o.addr);
        assert(lxr.cycle_state() =~= (CycleState {
            freed: old(lxr).cycle_state().freed.push(o.addr),
            ..old(lxr).cycle_state()
        }));
        lxr.set_candidate_status(o, 0);
        lxr.set_color(o, BLACK_OUT_OF_STACK);
        self.process_dead_object(o, heap, lxr);
        let ghost before = lxr.cycle_state();
        self.rc.dec_exclusive(&mut lxr.tables, o);
        assert(lxr.cycle_state() =~= before.table_dec(o));
    }

    /// Takes a reference to `o` away and returns how many there were. An object
    /// without a count has none to take away.
    fn drop_reference(&self, lxr: &mut Lxr, o: ObjectReference) -> (r: u64)
        requires
            old(lxr).wf(),
        ensures
            final(lxr).wf(),
            r == old(lxr).cycle_state().counts.count(o.granule()),
            final(lxr).cycle_state() == old(lxr).cycle_state().dec(o),
            final(lxr).same_but_cycle_state(*old(lxr)),
    {
        if lxr.count(o) == 0 {
            assert(lxr.cycle_state() =~= lxr.cycle_state().dec(o));
            return 0;
        }
        lxr.dec_exclusive(o)
    }

    /// Takes the references away that the slots of an array of references
    /// hold, up to the first logged slot. Returns whether there is one, and how
    /// many references there were.
    fn take_away_from_array(
        &self,
        slots: &Vec<usize>,
        heap: &Heap,
        lxr: &mut Lxr,
        dfs_stack: &mut Vec<ObjectReference>,
    ) -> (r: (bool, usize))
        requires
            heap.wf(),
            old(lxr).wf(),
            forall|j: int|
                0 <= j < slots@.len() ==> heap.fields@.dom().contains(#[trigger] slots@[j]),
        ensures
            final(lxr).wf(),
            final(lxr).same_but_cycle_state(*old(lxr)),
            took_away(
                old(lxr).snapshot(*heap),
                slots@,
                old(lxr).cycle_state(),
                final(lxr).cycle_state(),
                old(dfs_stack)@,
                final(dfs_stack)@,
                r.0,
                r.1,
            ),
    {
        let ghost c = lxr.snapshot(*heap);
        let ghost s0 = lxr.cycle_state();
        let mut num_of_childs: usize = 0;
        let mut is_logged: bool = false;
        let mut i: usize = 0;
        while i < slots.len() && !is_logged
            invariant
                heap.wf(),
                lxr.wf(),
                lxr.same_but_cycle_state(*old(lxr)),
                c == old(lxr).snapshot(*heap),
                forall|j: int|
                    0 <= j < slots@.len() ==> heap.fields@.dom().contains(#[trigger] slots@[j]),
                0 <= i <= slots@.len(),
                num_of_childs <= i,
                cycle_model::first_logged(c.unlog, slots@, 0) == cycle_model::first_logged(c.unlog, slots@, i as int),
                is_logged ==> cycle_model::first_logged(c.unlog, slots@, i as int) == i && i < slots@.len(),
                lxr.cycle_state() == cycle_model::take_away(s0, cycle_model::refs(*heap, slots@.take(i as int))),
                dfs_stack@ == old(dfs_stack)@ + cycle_model::refs(*heap, slots@.take(i as int)),
                num_of_childs == cycle_model::refs(*heap, slots@.take(i as int)).len(),
            decreases slots@.len() - i, !is_logged as int,
        {
            let slot: usize = slots[i];
            let child = heap.load(slot);
            if self.get_slot_logging_state(lxr, slot) == LOGGED_VALUE {
                is_logged = true;
            } else {
                proof {
                    assert(slots@.take(i + 1).drop_last() =~= slots@.take(i as int));
                }
                if let Some(x) = child {
                    let ghost xs = cycle_model::refs(*heap, slots@.take(i as int));
                    assert(xs.push(x).drop_last() =~= xs);
                    self.drop_reference(lxr, x);
                    lxr.strong_rc_dec_exclusive(x);
                    dfs_stack.push(x);
                    num_of_childs = num_of_childs + 1;
                }
                i = i + 1;
            }
        }
        (is_logged, num_of_childs)
    }

    /// Takes the references away that the slots of an object hold, up to the
    /// first logged slot. Every slot is visited, those after a logged one to no
    /// effect. Returns whether there is a logged one, and how many references
    /// there were.
    fn take_away_from_fields(
        &self,
        slots: &Vec<usize>,
        heap: &Heap,
        lxr: &mut Lxr,
        dfs_stack: &mut Vec<ObjectReference>,
    ) -> (r: (bool, usize))
        requires
            heap.wf(),
            old(lxr).wf(),
            forall|j: int|
                0 <= j < slots@.len() ==> heap.fields@.dom().contains(#[trigger] slots@[j]),
        ensures
            final(lxr).wf(),
            final(lxr).same_but_cycle_state(*old(lxr)),
            took_away(
                old(lxr).snapshot(*heap),
                slots@,
                old(lxr).cycle_state(),
                final(lxr).cycle_state(),
                old(dfs_stack)@,
                final(dfs_stack)@,
                r.0,
                r.1,
            ),
    {
        let ghost c = lxr.snapshot(*heap);
        let ghost s0 = lxr.cycle_state();
        let ghost fl = cycle_model::first_logged(c.unlog, slots@, 0);
        let mut num_of_childs: usize = 0;
        let mut is_logged: bool = false;
        let mut i: usize = 0;
        proof {
            cycle_model::first_logged_bounds(c.unlog, slots@, 0);
        }
        while i < slots.len()
            invariant
                heap.wf(),
                lxr.wf(),
                lxr.same_but_cycle_state(*old(lxr)),
                c == old(lxr).snapshot(*heap),
                fl == cycle_model::first_logged(c.unlog, slots@, 0),
                0 <= fl <= slots@.len(),
                forall|j: int|
                    0 <= j < slots@.len() ==> heap.fields@.dom().contains(#[trigger] slots@[j]),
                0 <= i <= slots@.len(),
                num_of_childs <= i,
                is_logged ==> fl < i,
                !is_logged ==> fl == cycle_model::first_logged(c.unlog, slots@, i as int) && i <= fl,
                lxr.cycle_state() == cycle_model::take_away(
                    s0,
                    cycle_model::refs(
                        *heap,
                        slots@.take(
                            if is_logged {
                                fl
                            } else {
                                i as int
                            },
                        ),
                    ),
                ),
                dfs_stack@ == old(dfs_stack)@ + cycle_model::refs(
                    *heap,
                    slots@.take(
                        if is_logged {
                            fl
                        } else {
                            i as int
                        },
                    ),
                ),
                num_of_childs == cycle_model::refs(
                    *heap,
                    slots@.take(
                        if is_logged {
                            fl
                        } else {
                            i as int
                        },
                    ),
                ).len(),
            decreases slots@.len() - i,
        {
            let slot: usize = slots[i];
            let child = heap.load(slot);
            if self.get_slot_logging_state(lxr, slot) == LOGGED_VALUE {
                is_logged = true;
            } else if !is_logged {
                proof {
                    assert(slots@.take(i + 1).drop_last() =~= slots@.take(i as int));
                    cycle_model::first_logged_bounds(c.unlog, slots@, i + 1);
                }
                if let Some(x) = child {
                    let ghost xs = cycle_model::refs(*heap, slots@.take(i as int));
                    assert(xs.push(x).drop_last() =~= xs);
                    self.drop_reference(lxr, x);
                    lxr.strong_rc_dec_exclusive(x);
                    dfs_stack.push(x);
                    num_of_childs = num_of_childs + 1;
                }
            }
            i = i + 1;
        }
        (is_logged, num_of_childs)
    }

    /// Gives the references back to the topmost `num_of_childs` objects of the
    /// stack, which become candidates and leave the stack.
    fn give_back_references(
        &self,
        num_of_childs: usize,
        Ghost(xs): Ghost<Seq<ObjectReference>>,
        lxr: &mut Lxr,
        dfs_stack: &mut Vec<ObjectReference>,
        cand_buffer: &mut LocalBuffer<ObjectReference>,
    )
        requires
            old(lxr).wf(),
            buffer::producer(old(lxr).current_pool(), *old(cand_buffer)).wf(),
            num_of_childs == xs.len(),
            num_of_childs <= old(dfs_stack)@.len(),
            xs == old(dfs_stack)@.skip(old(dfs_stack)@.len() - num_of_childs),
        ensures
            final(lxr).wf(),
            final(lxr).same_but_candidates(*old(lxr)),
            final(lxr).cycle_state() == cycle_model::give_back(
                old(lxr).cycle_state(),
                xs,
                (old(lxr).curr_vec + 1) as u8,
            ),
            final(dfs_stack)@ == old(dfs_stack)@.take(old(dfs_stack)@.len() - num_of_childs),
            buffer::producer(final(lxr).current_pool(), *final(cand_buffer)) == buffer::producer(
                old(lxr).current_pool(),
                *old(cand_buffer),
            ).push_all(xs.reverse()),
            buffer::producer(final(lxr).current_pool(), *final(cand_buffer)).wf(),
    {
        let ghost base = dfs_stack@.take(dfs_stack@.len() - num_of_childs);
        let ghost p0 = buffer::producer(lxr.current_pool(), *cand_buffer);
        let ghost s0 = lxr.cycle_state();
        let ghost tag = (lxr.curr_vec + 1) as u8;
        let mut k: usize = num_of_childs;
        proof {
            assert(xs.take(k as int) =~= xs);
            assert(dfs_stack@ =~= base + xs);
            assert(xs.reverse().take(0) =~= Seq::<ObjectReference>::empty());
        }
        while k > 0
            invariant
                lxr.wf(),
                lxr.same_but_candidates(*old(lxr)),
                tag == old(lxr).curr_vec + 1,
                k <= num_of_childs == xs.len(),
                dfs_stack@ == base + xs.take(k as int),
                cycle_model::give_back(lxr.cycle_state(), xs.take(k as int), tag)
                    == cycle_model::give_back(s0, xs, tag),
                buffer::producer(lxr.current_pool(), *cand_buffer) == p0.push_all(
                    xs.reverse().take(num_of_childs - k),
                ),
                buffer::producer(lxr.current_pool(), *cand_buffer).wf(),
            decreases k,
        {
            if let Some(curr_child) = dfs_stack.pop() {
                proof {
                    assert(curr_child == xs[k - 1]);
                    assert(xs.take(k as int).drop_last() =~= xs.take(k - 1));
                    assert(xs.reverse().take(num_of_childs - k + 1).drop_last()
                        =~= xs.reverse().take(num_of_childs - k));
                    assert(dfs_stack@ =~= base + xs.take(k - 1));
                }
                lxr.inc_exclusive(curr_child);
                lxr.push_candidate(cand_buffer, curr_child);
                let tag: u8 = lxr.curr_vec + 1;
                lxr.set_candidate_status(curr_child, tag);
                if !is_black(lxr, curr_child) {
                    lxr.strong_rc_dec_exclusive(curr_child);
                }
            }
            k = k - 1;
        }
        proof {
            assert(xs.reverse().take(num_of_childs as int) =~= xs.reverse());
            assert(base + xs.take(0) =~= base);
        }
    }

    /// Trial deletion from `o`.
    ///
    /// `dfs_stack` is a stack that the traversals share. It is empty before and
    /// after. What becomes a candidate goes through `cand_buffer` to the pool
    /// that takes new candidates.
    pub fn mark(
        &mut self,
        o: ObjectReference,
        heap: &Heap,
        lxr: &mut Lxr,
        dfs_stack: &mut Vec<ObjectReference>,
        cand_buffer: &mut LocalBuffer<ObjectReference>,
    )
        requires
            heap.wf(),
            heap.contains(o),
            old(lxr).wf(),
            old(dfs_stack)@.len() == 0,
            buffer::producer(old(lxr).current_pool(), *old(cand_buffer)).wf(),
        ensures
            final(lxr).wf(),
            final(lxr).same_but_candidates(*old(lxr)),
            final(dfs_stack)@.len() == 0,
            buffer::producer(final(lxr).current_pool(), *final(cand_buffer)).wf(),
            ({
                let w = marked(*old(self), *heap, *old(lxr), o);
                &&& final(lxr).cycle_state() == w.s
                &&& buffer::producer(final(lxr).current_pool(), *final(cand_buffer))
                    == buffer::producer(old(lxr).current_pool(), *old(cand_buffer)).push_all(w.out)
                &&& final(self).stats == (CycleCollectorStats {
                    objects_in_mark: w.visited,
                    ..old(self).stats
                })
            }),
    {
        let ghost c = lxr.snapshot(*heap);
        let ghost p0 = buffer::producer(lxr.current_pool(), *cand_buffer);
        let ghost mut w = cycle_model::walk_from(lxr.cycle_state(), o, self.stats.objects_in_mark, 0);
        let ghost w0 = w;
        dfs_stack.push(o);
        proof {
            assert(dfs_stack@ =~= w.stack);
        }
        while dfs_stack.len() > 0
            invariant
                heap.wf(),
                lxr.wf(),
                lxr.same_but_candidates(*old(lxr)),
                c == old(lxr).snapshot(*heap),
                c.wf(),
                c.holds(w.stack),
                lxr.cycle_state() == w.s,
                dfs_stack@ == w.stack,
                self.stats == (CycleCollectorStats {
                    objects_in_mark: w.visited,
                    ..old(self).stats
                }),
                buffer::producer(lxr.current_pool(), *cand_buffer) == p0.push_all(w.out),
                buffer::producer(lxr.current_pool(), *cand_buffer).wf(),
                cycle_model::mark_all(c, w) == cycle_model::mark_all(c, w0),
            decreases cycle_model::count_all(c.heap, cycle_model::unmarked(w.s)), w.stack.len(),
        {
            let ghost rest = w.stack.drop_last();
            proof {
                cycle_model::mark_step_progress(c, w);
                cycle_model::pop_in_heap(c, w.stack);
            }
            if let Some(curr) = dfs_stack.pop() {
                if is_black(lxr, curr) && lxr.strong_count(curr) == 0 && lxr.candidate_status(curr)
                    == 0 {
                    lxr.set_color(curr, GREY);
                    let info = heap.get(curr);
                    let ghost xs = cycle_model::refs(c.heap, c.unlogged_slots(curr));
                    assert(forall|j: int|
                        0 <= j < info.slots@.len() ==> heap.fields@.dom().contains(
                            #[trigger] heap.objects@[heap.place(curr)].slots@[j],
                        ));
                    let (is_logged, num_of_childs) = if info.is_obj_array {
                        self.take_away_from_array(&info.slots, heap, lxr, dfs_stack)
                    } else {
                        self.take_away_from_fields(&info.slots, heap, lxr, dfs_stack)
                    };
                    self.stats.objects_in_mark = self.stats.objects_in_mark.wrapping_add(1);
                    if is_logged {
                        lxr.set_color(curr, BLACK_IN_STACK);
                        proof {
                            assert(dfs_stack@.skip(dfs_stack@.len() - num_of_childs) =~= xs);
                        }
                        self.give_back_references(
                            num_of_childs,
                            Ghost(xs),
                            lxr,
                            dfs_stack,
                            cand_buffer,
                        );
                        lxr.push_candidate(cand_buffer, curr);
                        let tag: u8 = lxr.curr_vec + 1;
                        lxr.set_candidate_status(curr, tag);
                        proof {
                            assert(dfs_stack@ =~= rest);
                            buffer::push_all_of_concat(p0, w.out, xs.reverse());
                            let more = w.out + xs.reverse() + seq![curr];
                            assert(more.drop_last() =~= w.out + xs.reverse());
                        }
                    }
                } else if is_black(lxr, curr) {
                    lxr.set_color(curr, BLACK_IN_STACK);
                }
                proof {
                    let v = cycle_model::mark_step(c, w);
                    assert(dfs_stack@ =~= v.stack);
                    w = v;
                }
            }
        }
    }

    /// Restores what `o`, which has a reference from outside, refers to.
    pub fn scan_black(
        &mut self,
        o: ObjectReference,
        heap: &Heap,
        lxr: &mut Lxr,
        dfs_stack: &mut Vec<ObjectReference>,
    )
        requires
            heap.wf(),
            heap.contains(o),
            old(lxr).wf(),
            old(lxr).snapshot(*heap).covers(old(lxr).cycle_state().color),
            old(dfs_stack)@.len() == 0,
        ensures
            final(lxr).wf(),
            final(lxr).same_but_cycle_state(*old(lxr)),
            final(lxr).snapshot(*heap).covers(final(lxr).cycle_state().color),
            final(dfs_stack)@.len() == 0,
            ({
                let w = restored(*old(self), *heap, *old(lxr), o);
                &&& final(lxr).cycle_state() == w.s
                &&& final(self).stats == (CycleCollectorStats {
                    objects_in_scan_black: w.visited,
                    ..old(self).stats
                })
            }),
    {
        let ghost c = lxr.snapshot(*heap);
        let ghost mut w = cycle_model::walk_from(
            lxr.cycle_state(),
            o,
            self.stats.objects_in_scan_black,
            0,
        );
        let ghost w0 = w;
        dfs_stack.push(o);
        proof {
            assert(dfs_stack@ =~= w.stack);
        }
        while dfs_stack.len() > 0
            invariant
                heap.wf(),
                lxr.wf(),
                lxr.same_but_cycle_state(*old(lxr)),
                c == old(lxr).snapshot(*heap),
                c.wf(),
                c.holds(w.stack),
                c.covers(w.s.color),
                lxr.cycle_state() == w.s,
                dfs_stack@ == w.stack,
                self.stats == (CycleCollectorStats {
                    objects_in_scan_black: w.visited,
                    ..old(self).stats
                }),
                cycle_model::scan_black_all(c, w) == cycle_model::scan_black_all(c, w0),
            decreases cycle_model::count_all(c.heap, cycle_model::not_black(w.s)), w.stack.len(),
        {
            proof {
                cycle_model::scan_black_step_progress(c, w);
                cycle_model::pop_in_heap(c, w.stack);
            }
            let curr = dfs_stack[dfs_stack.len() - 1];
            if !is_black(lxr, curr) {
                lxr.set_color(curr, BLACK_IN_STACK);
                let s_rc: u8 = lxr.count(curr).wrapping_sub(1);
                if s_rc > MAX_STRONG_REF_COUNT {
                    lxr.set_strong_count(curr, MAX_STRONG_REF_COUNT);
                } else {
                    lxr.set_strong_count(curr, s_rc);
                }
                self.restore_children(curr, heap, lxr, dfs_stack, Ghost(w.s.color));
                self.stats.objects_in_scan_black = self.stats.objects_in_scan_black.wrapping_add(1);
            } else {
                lxr.set_color(curr, BLACK_OUT_OF_STACK);
                dfs_stack.pop();
            }
            proof {
                let v = cycle_model::scan_black_step(c, w);
                assert(dfs_stack@ =~= v.stack);
                w = v;
            }
        }
    }

    /// Gives the references back that `curr` holds, and puts what is not being
    /// restored already on the stack.
    fn restore_children(
        &self,
        curr: ObjectReference,
        heap: &Heap,
        lxr: &mut Lxr,
        dfs_stack: &mut Vec<ObjectReference>,
        Ghost(color): Ghost<Map<usize, u8>>,
    )
        requires
            heap.wf(),
            heap.contains(curr),
            old(lxr).wf(),
            old(lxr).snapshot(*heap).covers(color),
            color[curr.granule()] >= 2,
        ensures
            final(lxr).wf(),
            final(lxr).same_but_cycle_state(*old(lxr)),
            ({
                let c = old(lxr).snapshot(*heap);
                let xs = cycle_model::satb_refs(c, heap.slots(curr));
                &&& final(lxr).cycle_state() == cycle_model::restore(old(lxr).cycle_state(), xs)
                &&& final(dfs_stack)@ == old(dfs_stack)@ + cycle_model::not_in_stack(
                    old(lxr).cycle_state().color,
                    xs,
                )
            }),
    {
        let ghost c = lxr.snapshot(*heap);
        let ghost s0 = lxr.cycle_state();
        let slots = &heap.get(curr).slots;
        let mut i: usize = 0;
        while i < slots.len()
            invariant
                heap.wf(),
                heap.contains(curr),
                slots@ == heap.slots(curr),
                lxr.wf(),
                lxr.same_but_cycle_state(*old(lxr)),
                c == old(lxr).snapshot(*heap),
                c.covers(color),
                color[curr.granule()] >= 2,
                i <= slots@.len(),
                lxr.cycle_state() == cycle_model::restore(
                    s0,
                    cycle_model::satb_refs(c, slots@.take(i as int)),
                ),
                lxr.cycle_state().color == s0.color,
                dfs_stack@ == old(dfs_stack)@ + cycle_model::not_in_stack(
                    s0.color,
                    cycle_model::satb_refs(c, slots@.take(i as int)),
                ),
            decreases slots@.len() - i,
        {
            proof {
                assert(slots@[i as int] == heap.objects@[heap.place(curr)].slots@[i as int]);
                assert(slots@.take(i + 1).drop_last() =~= slots@.take(i as int));
                assert(c.heap.objects@[heap.place(curr)].object == curr);
            }
            let slot: usize = slots[i];
            if let Some(x) = self.get_child(heap, lxr, slot) {
                let ghost xs = cycle_model::satb_refs(c, slots@.take(i as int));
                assert(xs.push(x).drop_last() =~= xs);
                lxr.inc_exclusive(x);
                if !in_stack(lxr, x) {
                    lxr.strong_rc_inc_exclusive(x);
                    dfs_stack.push(x);
                }
            }
            i = i + 1;
        }
        assert(slots@.take(slots@.len() as int) =~= slots@);
    }

    /// The scan from the candidate `o`.
    pub fn scan(
        &mut self,
        o: ObjectReference,
        heap: &Heap,
        lxr: &mut Lxr,
        dfs_stack: &mut Vec<ObjectReference>,
        black_stack: &mut Vec<ObjectReference>,
    )
        requires
            heap.wf(),
            heap.contains(o),
            old(lxr).wf(),
            old(lxr).snapshot(*heap).covers(old(lxr).cycle_state().color),
            old(dfs_stack)@.len() == 0,
            old(black_stack)@.len() == 0,
        ensures
            final(lxr).wf(),
            final(lxr).same_but_cycle_state(*old(lxr)),
            final(lxr).snapshot(*heap).covers(final(lxr).cycle_state().color),
            final(dfs_stack)@.len() == 0,
            final(black_stack)@.len() == 0,
            ({
                let w = scanned(*old(self), *heap, *old(lxr), o);
                &&& final(lxr).cycle_state() == w.s
                &&& final(self).stats == (CycleCollectorStats {
                    objects_in_scan: w.visited,
                    objects_in_scan_black: w.nested,
                    ..old(self).stats
                })
            }),
    {
        let ghost c = lxr.snapshot(*heap);
        let ghost mut w = cycle_model::walk_from(
            lxr.cycle_state(),
            o,
            self.stats.objects_in_scan,
            self.stats.objects_in_scan_black,
        );
        let ghost w0 = w;
        dfs_stack.push(o);
        proof {
            assert(dfs_stack@ =~= w.stack);
        }
        while dfs_stack.len() > 0
            invariant
                heap.wf(),
                lxr.wf(),
                lxr.same_but_cycle_state(*old(lxr)),
                black_stack@.len() == 0,
                c == old(lxr).snapshot(*heap),
                c.wf(),
                c.holds(w.stack),
                c.covers(w.s.color),
                lxr.cycle_state() == w.s,
                dfs_stack@ == w.stack,
                self.stats == (CycleCollectorStats {
                    objects_in_scan: w.visited,
                    objects_in_scan_black: w.nested,
                    ..old(self).stats
                }),
                cycle_model::scan_all(c, w) == cycle_model::scan_all(c, w0),
            decreases cycle_model::count_all(c.heap, cycle_model::grey(w.s)), w.stack.len(),
        {
            proof {
                cycle_model::scan_step_progress(c, w);
                cycle_model::pop_in_heap(c, w.stack);
            }
            if let Some(curr) = dfs_stack.pop() {
                self.stats.objects_in_scan = self.stats.objects_in_scan.wrapping_add(1);
                if lxr.color(curr) == GREY {
                    if lxr.count(curr) > 1 {
                        self.scan_black(curr, heap, lxr, black_stack);
                    } else {
                        lxr.set_color(curr, WHITE);
                        self.push_old_children(curr, heap, lxr, dfs_stack, Ghost(w.s.color));
                    }
                }
                proof {
                    let v = cycle_model::scan_step(c, w);
                    assert(dfs_stack@ =~= v.stack);
                    w = v;
                }
            }
        }
    }

    /// Puts what `curr` referred to when the collection began on the stack.
    fn push_old_children(
        &self,
        curr: ObjectReference,
        heap: &Heap,
        lxr: &Lxr,
        dfs_stack: &mut Vec<ObjectReference>,
        Ghost(color): Ghost<Map<usize, u8>>,
    )
        requires
            heap.wf(),
            heap.contains(curr),
            lxr.wf(),
            lxr.snapshot(*heap).covers(color),
            color[curr.granule()] >= 2,
        ensures
            final(dfs_stack)@ == old(dfs_stack)@ + cycle_model::satb_refs(
                lxr.snapshot(*heap),
                heap.slots(curr),
            ),
    {
        let ghost c = lxr.snapshot(*heap);
        let slots = &heap.get(curr).slots;
        let mut i: usize = 0;
        while i < slots.len()
            invariant
                heap.wf(),
                heap.contains(curr),
                slots@ == heap.slots(curr),
                lxr.wf(),
                c == lxr.snapshot(*heap),
                c.covers(color),
                color[curr.granule()] >= 2,
                i <= slots@.len(),
                dfs_stack@ == old(dfs_stack)@ + cycle_model::satb_refs(c, slots@.take(i as int)),
            decreases slots@.len() - i,
        {
            proof {
                assert(slots@[i as int] == heap.objects@[heap.place(curr)].slots@[i as int]);
                assert(slots@.take(i + 1).drop_last() =~= slots@.take(i as int));
                assert(c.heap.objects@[heap.place(curr)].object == curr);
            }
            let slot: usize = slots[i];
            if let Some(x) = self.get_child(heap, lxr, slot) {
                dfs_stack.push(x);
            }
            i = i + 1;
        }
        assert(slots@.take(slots@.len() as int) =~= slots@);
    }

    /// Reclaims the live object `o`, which lost its last reference, and what
    /// dies with it.
    pub fn collect_blacks(
        &mut self,
        o: ObjectReference,
        heap: &Heap,
        lxr: &mut Lxr,
        dfs_stack: &mut Vec<ObjectReference>,
        cand_buffer: &mut LocalBuffer<ObjectReference>,
    )
        requires
            heap.wf(),
            heap.contains(o),
            old(lxr).wf(),
            old(dfs_stack)@.len() == 0,
            buffer::producer(old(lxr).current_pool(), *old(cand_buffer)).wf(),
        ensures
            final(lxr).wf(),
            final(lxr).same_but_candidates(*old(lxr)),
            final(dfs_stack)@.len() == 0,
            buffer::producer(final(lxr).current_pool(), *final(cand_buffer)).wf(),
            ({
                let w = collected_black(*old(self), *heap, *old(lxr), o);
                &&& final(lxr).cycle_state() == w.s
                &&& buffer::producer(final(lxr).current_pool(), *final(cand_buffer))
                    == buffer::producer(old(lxr).current_pool(), *old(cand_buffer)).push_all(w.out)
                &&& final(self).stats == (CycleCollectorStats {
                    objects_in_collect: w.visited,
                    ..old(self).stats
                })
            }),
    {
        let ghost c = lxr.snapshot(*heap);
        let ghost p0 = buffer::producer(lxr.current_pool(), *cand_buffer);
        let ghost mut w = cycle_model::walk_from(
            lxr.cycle_state(),
            o,
            self.stats.objects_in_collect,
            0,
        );
        let ghost w0 = w;
        dfs_stack.push(o);
        proof {
            assert(dfs_stack@ =~= w.stack);
        }
        while dfs_stack.len() > 0
            invariant
                heap.wf(),
                lxr.wf(),
                lxr.same_but_candidates(*old(lxr)),
                c == old(lxr).snapshot(*heap),
                c.wf(),
                c.holds(w.stack),
                lxr.cycle_state() == w.s,
                dfs_stack@ == w.stack,
                self.stats == (CycleCollectorStats {
                    objects_in_collect: w.visited,
                    ..old(self).stats
                }),
                buffer::producer(lxr.current_pool(), *cand_buffer) == p0.push_all(w.out),
                buffer::producer(lxr.current_pool(), *cand_buffer).wf(),
                cycle_model::collect_blacks_all(c, w) == cycle_model::collect_blacks_all(c, w0),
            decreases cycle_model::count_all(c.heap, cycle_model::referenced(w.s)), w.stack.len(),
        {
            proof {
                cycle_model::collect_blacks_step_progress(c, w);
                cycle_model::pop_in_heap(c, w.stack);
            }
            if let Some(curr) = dfs_stack.pop() {
                self.stats.objects_in_collect = self.stats.objects_in_collect.wrapping_add(1);
                let ghost u = Walk {
                    stack: w.stack.drop_last(),
                    visited: w.visited.wrapping_add(1),
                    ..w
                };
                self.drop_children(curr, heap, lxr, dfs_stack, cand_buffer, Ghost(u), Ghost(p0));
                self.reclaim_object(curr, heap, lxr);
                proof {
                    w = cycle_model::collect_blacks_step(c, w);
                }
            }
        }
    }

    /// Drops the references that `curr` holds.
    fn drop_children(
        &self,
        curr: ObjectReference,
        heap: &Heap,
        lxr: &mut Lxr,
        dfs_stack: &mut Vec<ObjectReference>,
        cand_buffer: &mut LocalBuffer<ObjectReference>,
        Ghost(u): Ghost<Walk>,
        Ghost(p0): Ghost<buffer::Producer<ObjectReference>>,
    )
        requires
            heap.wf(),
            heap.contains(curr),
            old(lxr).wf(),
            old(lxr).cycle_state() == u.s,
            old(dfs_stack)@ == u.stack,
            buffer::producer(old(lxr).current_pool(), *old(cand_buffer)) == p0.push_all(u.out),
            buffer::producer(old(lxr).current_pool(), *old(cand_buffer)).wf(),
        ensures
            final(lxr).wf(),
            final(lxr).same_but_candidates(*old(lxr)),
            buffer::producer(final(lxr).current_pool(), *final(cand_buffer)).wf(),
            ({
                let v = cycle_model::drop_refs(
                    u,
                    cycle_model::refs(*heap, heap.slots(curr)),
                    (old(lxr).curr_vec + 1) as u8,
                );
                &&& final(lxr).cycle_state() == v.s
                &&& final(dfs_stack)@ == v.stack
                &&& buffer::producer(final(lxr).current_pool(), *final(cand_buffer))
                    == p0.push_all(v.out)
            }),
    {
        let ghost tag = (lxr.curr_vec + 1) as u8;
        let slots = &heap.get(curr).slots;
        let mut i: usize = 0;
        while i < slots.len()
            invariant
                heap.wf(),
                heap.contains(curr),
                slots@ == heap.slots(curr),
                lxr.wf(),
                lxr.same_but_candidates(*old(lxr)),
                tag == old(lxr).curr_vec + 1,
                i <= slots@.len(),
                ({
                    let v = cycle_model::drop_refs(
                        u,
                        cycle_model::refs(*heap, slots@.take(i as int)),
                        tag,
                    );
                    &&& lxr.cycle_state() == v.s
                    &&& dfs_stack@ == v.stack
                    &&& buffer::producer(lxr.current_pool(), *cand_buffer) == p0.push_all(v.out)
                }),
                buffer::producer(lxr.current_pool(), *cand_buffer).wf(),
            decreases slots@.len() - i,
        {
            proof {
                assert(slots@[i as int] == heap.objects@[heap.place(curr)].slots@[i as int]);
                assert(slots@.take(i + 1).drop_last() =~= slots@.take(i as int));
            }
            let slot: usize = slots[i];
            if let Some(x) = heap.load(slot) {
                let ghost xs = cycle_model::refs(*heap, slots@.take(i as int));
                let ghost out = cycle_model::drop_refs(u, xs, tag).out;
                assert(xs.push(x).drop_last() =~= xs);
                assert(out.push(x).drop_last() =~= out);
                let prev_rc: u64 = self.drop_reference(lxr, x);
                let prev_s_rc: u8 = lxr.strong_rc_dec_exclusive(x);
                if prev_rc == 2 {
                    dfs_stack.push(x);
                } else if prev_s_rc == STRONG_RC_LAST_BEFORE_ZERO {
                    let tag: u8 = lxr.curr_vec + 1;
                    lxr.set_candidate_status(x, tag);
                    lxr.push_candidate(cand_buffer, x);
                }
            }
            i = i + 1;
        }
        assert(slots@.take(slots@.len() as int) =~= slots@);
    }

    /// The collection from the candidate `o`.
    pub fn collect_whites(
        &mut self,
        o: ObjectReference,
        heap: &Heap,
        lxr: &mut Lxr,
        dfs_stack: &mut Vec<ObjectReference>,
        black_stack: &mut Vec<ObjectReference>,
        cand_buffer: &mut LocalBuffer<ObjectReference>,
    )
        requires
            heap.wf(),
            heap.contains(o),
            old(lxr).wf(),
            old(dfs_stack)@.len() == 0,
            old(black_stack)@.len() == 0,
            buffer::producer(old(lxr).current_pool(), *old(cand_buffer)).wf(),
        ensures
            final(lxr).wf(),
            final(lxr).same_but_candidates(*old(lxr)),
            final(dfs_stack)@.len() == 0,
            final(black_stack)@.len() == 0,
            buffer::producer(final(lxr).current_pool(), *final(cand_buffer)).wf(),
            ({
                let w = collected(*old(self), *heap, *old(lxr), o);
                &&& final(lxr).cycle_state() == w.s
                &&& buffer::producer(final(lxr).current_pool(), *final(cand_buffer))
                    == buffer::producer(old(lxr).current_pool(), *old(cand_buffer)).push_all(w.out)
                &&& final(self).stats == (CycleCollectorStats {
                    objects_in_collect: w.visited,
                    ..old(self).stats
                })
            }),
    {
        let ghost c = lxr.snapshot(*heap);
        let ghost p0 = buffer::producer(lxr.current_pool(), *cand_buffer);
        let ghost mut w = cycle_model::walk_from(
            lxr.cycle_state(),
            o,
            self.stats.objects_in_collect,
            0,
        );
        let ghost w0 = w;
        dfs_stack.push(o);
        proof {
            assert(dfs_stack@ =~= w.stack);
        }
        while dfs_stack.len() > 0
            invariant
                heap.wf(),
                lxr.wf(),
                lxr.same_but_candidates(*old(lxr)),
                black_stack@.len() == 0,
                c == old(lxr).snapshot(*heap),
                c.wf(),
                c.holds(w.stack),
                lxr.cycle_state() == w.s,
                dfs_stack@ == w.stack,
                self.stats == (CycleCollectorStats {
                    objects_in_collect: w.visited,
                    ..old(self).stats
                }),
                buffer::producer(lxr.current_pool(), *cand_buffer) == p0.push_all(w.out),
                buffer::producer(lxr.current_pool(), *cand_buffer).wf(),
                cycle_model::collect_whites_all(c, w) == cycle_model::collect_whites_all(c, w0),
            decreases cycle_model::count_all(c.heap, cycle_model::white(w.s)), w.stack.len(),
        {
            proof {
                cycle_model::collect_whites_step_progress(c, w);
                cycle_model::pop_in_heap(c, w.stack);
            }
            if let Some(curr) = dfs_stack.pop() {
                self.stats.objects_in_collect = self.stats.objects_in_collect.wrapping_add(1);
                if lxr.color(curr) == WHITE {
                    self.push_children(curr, heap, dfs_stack);
                    self.reclaim_object(curr, heap, lxr);
                } else if lxr.color(curr) == BLACK_IN_STACK && lxr.count(curr) == 1 {
                    self.collect_blacks(curr, heap, lxr, black_stack, cand_buffer);
                    proof {
                        let b = cycle_model::collect_blacks_all(
                            c,
                            cycle_model::walk_from(w.s, curr, w.visited.wrapping_add(1), 0),
                        );
                        buffer::push_all_of_concat(p0, w.out, b.out);
                    }
                }
                proof {
                    let v = cycle_model::collect_whites_step(c, w);
                    assert(dfs_stack@ =~= v.stack);
                    w = v;
                }
            }
        }
    }

    /// Puts what `curr` refers to on the stack.
    fn push_children(
        &self,
        curr: ObjectReference,
        heap: &Heap,
        dfs_stack: &mut Vec<ObjectReference>,
    )
        requires
            heap.wf(),
            heap.contains(curr),
        ensures
            final(dfs_stack)@ == old(dfs_stack)@ + cycle_model::refs(*heap, heap.slots(curr)),
    {
        let slots = &heap.get(curr).slots;
        let mut i: usize = 0;
        while i < slots.len()
            invariant
                heap.wf(),
                heap.contains(curr),
                slots@ == heap.slots(curr),
                i <= slots@.len(),
                dfs_stack@ == old(dfs_stack)@ + cycle_model::refs(*heap, slots@.take(i as int)),
            decreases slots@.len() - i,
        {
            proof {
                assert(slots@[i as int] == heap.objects@[heap.place(curr)].slots@[i as int]);
                assert(slots@.take(i + 1).drop_last() =~= slots@.take(i as int));
            }
            let slot: usize = slots[i];
            if let Some(x) = heap.load(slot) {
                dfs_stack.push(x);
            }
            i = i + 1;
        }
        assert(slots@.take(slots@.len() as int) =~= slots@);
    }
}

/// What trial deletion from `o` comes to.
pub open spec fn marked(cc: CycleCollector, heap: Heap, lxr: Lxr, o: ObjectReference) -> Walk {
    cycle_model::mark_all(
        lxr.snapshot(heap),
        cycle_model::walk_from(lxr.cycle_state(), o, cc.stats.objects_in_mark, 0),
    )
}

/// What restoring from `o` comes to.
pub open spec fn restored(cc: CycleCollector, heap: Heap, lxr: Lxr, o: ObjectReference) -> Walk {
    cycle_model::scan_black_all(
        lxr.snapshot(heap),
        cycle_model::walk_from(lxr.cycle_state(), o, cc.stats.objects_in_scan_black, 0),
    )
}

/// What the scan from `o` comes to.
pub open spec fn scanned(cc: CycleCollector, heap: Heap, lxr: Lxr, o: ObjectReference) -> Walk {
    cycle_model::scan_all(
        lxr.snapshot(heap),
        cycle_model::walk_from(
            lxr.cycle_state(),
            o,
            cc.stats.objects_in_scan,
            cc.stats.objects_in_scan_black,
        ),
    )
}

/// What reclaiming the live object `o` comes to.
pub open spec fn collected_black(
    cc: CycleCollector,
    heap: Heap,
    lxr: Lxr,
    o: ObjectReference,
) -> Walk {
    cycle_model::collect_blacks_all(
        lxr.snapshot(heap),
        cycle_model::walk_from(lxr.cycle_state(), o, cc.stats.objects_in_collect, 0),
    )
}

/// What the collection from `o` comes to.
pub open spec fn collected(cc: CycleCollector, heap: Heap, lxr: Lxr, o: ObjectReference) -> Walk {
    cycle_model::collect_whites_all(
        lxr.snapshot(heap),
        cycle_model::walk_from(lxr.cycle_state(), o, cc.stats.objects_in_collect, 0),
    )
}

/// What taking away the references that `slots` hold, up to the first logged
/// one, does to the state and the stack.
pub open spec fn took_away(
    c: Snapshot,
    slots: Seq<usize>,
    s: CycleState,
    t: CycleState,
    stack: Seq<ObjectReference>,
    new_stack: Seq<ObjectReference>,
    is_logged: bool,
    num_of_childs: usize,
) -> bool {
    let xs = cycle_model::refs(c.heap, slots.take(cycle_model::first_logged(c.unlog, slots, 0)));
    &&& is_logged == (cycle_model::first_logged(c.unlog, slots, 0) < slots.len())
    &&& t == cycle_model::take_away(s, xs)
    &&& new_stack == stack + xs
    &&& num_of_childs == xs.len()
}

impl CycleCollector {
    /// The scan phase over one buffer of candidates.
    fn scan_buffer(
        &mut self,
        heap: &Heap,
        lxr: &mut Lxr,
        candidates: &mut FinalBuffers<ObjectReference>,
        dfs_stack: &mut Vec<ObjectReference>,
        nested_stack: &mut Vec<ObjectReference>,
    )
        requires
            heap.wf(),
            old(lxr).wf(),
            old(lxr).snapshot(*heap).covers(old(lxr).cycle_state().color),
            cycle_phases::all_in_heap(old(lxr).snapshot(*heap), old(candidates)@),
            old(dfs_stack)@.len() == 0,
            old(nested_stack)@.len() == 0,
        ensures
            final(lxr).wf(),
            final(lxr).same_but_cycle_state(*old(lxr)),
            final(lxr).snapshot(*heap).covers(final(lxr).cycle_state().color),
            final(candidates)@ == old(candidates)@,
            final(dfs_stack)@.len() == 0,
            final(nested_stack)@.len() == 0,
            ({
                let w = cycle_phases::scan_each(
                    old(lxr).snapshot(*heap),
                    cycle_phases::carry(
                        old(lxr).cycle_state(),
                        old(self).stats.objects_in_scan,
                        old(self).stats.objects_in_scan_black,
                    ),
                    old(candidates)@.flatten(),
                );
                &&& final(lxr).cycle_state() == w.s
                &&& final(self).stats == (CycleCollectorStats {
                    objects_in_scan: w.visited,
                    objects_in_scan_black: w.nested,
                    ..old(self).stats
                })
            }),
    {
        let ghost c = lxr.snapshot(*heap);
        let ghost b = candidates@;
        let ghost flat = b.flatten();
        let ghost w0 = cycle_phases::carry(
            lxr.cycle_state(),
            self.stats.objects_in_scan,
            self.stats.objects_in_scan_black,
        );
        let ghost mut k: int = 0;
        proof {
            buffer::pending_from_start(b);
            cycle_phases::flatten_in_heap(c, b);
            assert(flat.skip(0) =~= flat);
            assert(flat.take(0) =~= Seq::<ObjectReference>::empty());
        }
        let mut it = candidates.iter_mut();
        let mut done: bool = false;
        while !done
            invariant
                heap.wf(),
                lxr.wf(),
                lxr.same_but_cycle_state(*old(lxr)),
                c == old(lxr).snapshot(*heap),
                c.wf(),
                c.covers(lxr.cycle_state().color),
                c.holds(flat),
                flat == b.flatten(),
                dfs_stack@.len() == 0,
                nested_stack@.len() == 0,
                !done ==> it.wf(),
                buffer::deep(it.buffers@) == b,
                after_borrow(candidates).buffers@ == (*final(it.buffers))@,
                0 <= k <= flat.len(),
                !done ==> it.pending() == flat.skip(k),
                done ==> k == flat.len(),
                ({
                    let w = cycle_phases::scan_each(c, w0, flat.take(k));
                    &&& lxr.cycle_state() == w.s
                    &&& self.stats == (CycleCollectorStats {
                        objects_in_scan: w.visited,
                        objects_in_scan_black: w.nested,
                        ..old(self).stats
                    })
                }),
            decreases flat.len() - k, !done as int,
        {
            proof {
                buffer::seek_skips_nothing(b, it.buf_idx as int, it.next_elem());
            }
            match it.next() {
                Some(cand) => {
                    let o = *cand;
                    proof {
                        assert(flat.skip(k)[0] == flat[k]);
                        assert(flat.take(k + 1).drop_last() =~= flat.take(k));
                        assert(flat.skip(k).skip(1) =~= flat.skip(k + 1));
                        k = k + 1;
                    }
                    self.scan(o, heap, lxr, dfs_stack, nested_stack);
                    proof {
                        let bi = it.buf_idx as int;
                        assert(b[bi].update(it.elem_idx as int, o) =~= b[bi]);
                        assert(buffer::deep(it.buffers@) =~= b);
                    }
                },
                None => {
                    done = true;
                },
            }
        }
        assert(flat.take(k) =~= flat);
    }

    /// The collect phase over one buffer of candidates. Writes to slots are no
    /// longer recorded when it begins.
    fn collect_buffer(
        &mut self,
        heap: &Heap,
        lxr: &mut Lxr,
        candidates: &mut FinalBuffers<ObjectReference>,
        dfs_stack: &mut Vec<ObjectReference>,
        nested_stack: &mut Vec<ObjectReference>,
        cand_buffer: &mut LocalBuffer<ObjectReference>,
    )
        requires
            heap.wf(),
            old(lxr).wf(),
            !old(lxr).in_cycle_collection,
            cycle_phases::all_in_heap(old(lxr).snapshot(*heap), old(candidates)@),
            old(dfs_stack)@.len() == 0,
            old(nested_stack)@.len() == 0,
            buffer::producer(old(lxr).current_pool(), *old(cand_buffer)).wf(),
        ensures
            final(lxr).wf(),
            final(lxr).same_but_candidates(*old(lxr)),
            final(candidates)@ == old(candidates)@,
            final(dfs_stack)@.len() == 0,
            final(nested_stack)@.len() == 0,
            buffer::producer(final(lxr).current_pool(), *final(cand_buffer)).wf(),
            ({
                let w = cycle_phases::collect_each(
                    old(lxr).snapshot(*heap),
                    cycle_phases::carry(
                        old(lxr).cycle_state(),
                        old(self).stats.objects_in_collect,
                        0,
                    ),
                    old(candidates)@.flatten(),
                );
                &&& final(lxr).cycle_state() == w.s
                &&& buffer::producer(final(lxr).current_pool(), *final(cand_buffer))
                    == buffer::producer(old(lxr).current_pool(), *old(cand_buffer)).push_all(w.out)
                &&& final(self).stats == (CycleCollectorStats {
                    objects_in_collect: w.visited,
                    ..old(self).stats
                })
            }),
    {
        let ghost c = lxr.snapshot(*heap);
        let ghost b = candidates@;
        let ghost flat = b.flatten();
        let ghost p0 = buffer::producer(lxr.current_pool(), *cand_buffer);
        let ghost w0 = cycle_phases::carry(lxr.cycle_state(), self.stats.objects_in_collect, 0);
        let ghost mut k: int = 0;
        proof {
            buffer::pending_from_start(b);
            cycle_phases::flatten_in_heap(c, b);
            assert(flat.skip(0) =~= flat);
            assert(flat.take(0) =~= Seq::<ObjectReference>::empty());
        }
        let mut it = candidates.iter_mut();
        let mut done: bool = false;
        while !done
            invariant
                heap.wf(),
                lxr.wf(),
                lxr.same_but_candidates(*old(lxr)),
                c == old(lxr).snapshot(*heap),
                c.wf(),
                c.holds(flat),
                flat == b.flatten(),
                dfs_stack@.len() == 0,
                nested_stack@.len() == 0,
                !done ==> it.wf(),
                buffer::deep(it.buffers@) == b,
                after_borrow(candidates).buffers@ == (*final(it.buffers))@,
                0 <= k <= flat.len(),
                !done ==> it.pending() == flat.skip(k),
                done ==> k == flat.len(),
                buffer::producer(lxr.current_pool(), *cand_buffer).wf(),
                ({
                    let w = cycle_phases::collect_each(c, w0, flat.take(k));
                    &&& lxr.cycle_state() == w.s
                    &&& buffer::producer(lxr.current_pool(), *cand_buffer) == p0.push_all(w.out)
                    &&& self.stats == (CycleCollectorStats {
                        objects_in_collect: w.visited,
                        ..old(self).stats
                    })
                }),
            decreases flat.len() - k, !done as int,
        {
            proof {
                buffer::seek_skips_nothing(b, it.buf_idx as int, it.next_elem());
            }
            match it.next() {
                Some(cand) => {
                    let o = *cand;
                    let ghost v = cycle_phases::collect_each(c, w0, flat.take(k));
                    proof {
                        assert(flat.skip(k)[0] == flat[k]);
                        assert(flat.take(k + 1).drop_last() =~= flat.take(k));
                        assert(flat.skip(k).skip(1) =~= flat.skip(k + 1));
                        k = k + 1;
                    }
                    self.collect_whites(o, heap, lxr, dfs_stack, nested_stack, cand_buffer);
                    proof {
                        let f = cycle_model::collect_whites_all(
                            c,
                            cycle_model::walk_from(v.s, o, v.visited, 0),
                        );
                        buffer::push_all_of_concat(p0, v.out, f.out);
                        let bi = it.buf_idx as int;
                        assert(b[bi].update(it.elem_idx as int, o) =~= b[bi]);
                        assert(buffer::deep(it.buffers@) =~= b);
                    }
                },
                None => {
                    done = true;
                },
            }
        }
        assert(flat.take(k) =~= flat);
    }

    /// The mark phase over the candidates that were drained from the pool with
    /// tag `vec_index`. Those that are not marked from leave `candidates`.
    ///
    /// `cand_buffer` is a handle on the pool that takes new candidates, whose
    /// tag new candidates get.
    fn mark_buffer(
        &mut self,
        heap: &Heap,
        lxr: &mut Lxr,
        candidates: &mut FinalBuffers<ObjectReference>,
        vec_index: u8,
        dfs_stack: &mut Vec<ObjectReference>,
        cand_buffer: &mut LocalBuffer<ObjectReference>,
    )
        requires
            heap.wf(),
            old(lxr).wf(),
            cycle_phases::all_in_heap(old(lxr).snapshot(*heap), old(candidates)@),
            old(dfs_stack)@.len() == 0,
            buffer::producer(old(lxr).current_pool(), *old(cand_buffer)).wf(),
        ensures
            final(lxr).wf(),
            final(lxr).same_but_candidates(*old(lxr)),
            final(dfs_stack)@.len() == 0,
            buffer::producer(final(lxr).current_pool(), *final(cand_buffer)).wf(),
            ({
                let b = cycle_phases::mark_buffers(
                    old(lxr).snapshot(*heap),
                    vec_index,
                    cycle_phases::buffers_from(
                        old(lxr).cycle_state(),
                        old(candidates)@,
                        old(self).stats.objects_in_mark,
                    ),
                );
                &&& final(lxr).cycle_state() == b.s
                &&& final(candidates)@ == b.buffers
                &&& buffer::producer(final(lxr).current_pool(), *final(cand_buffer))
                    == buffer::producer(old(lxr).current_pool(), *old(cand_buffer)).push_all(b.out)
                &&& final(self).stats == (CycleCollectorStats {
                    objects_in_mark: b.visited,
                    ..old(self).stats
                })
            }),
    {
        let ghost c = lxr.snapshot(*heap);
        let ghost p0 = buffer::producer(lxr.current_pool(), *cand_buffer);
        let ghost mut b = cycle_phases::buffers_from(
            lxr.cycle_state(),
            candidates@,
            self.stats.objects_in_mark,
        );
        let ghost b0 = b;
        let mut it = candidates.iter_mut();
        let mut done: bool = false;
        while !done
            invariant
                heap.wf(),
                lxr.wf(),
                lxr.same_but_candidates(*old(lxr)),
                c == old(lxr).snapshot(*heap),
                c.wf(),
                dfs_stack@.len() == 0,
                !done ==> it.wf(),
                after_borrow(candidates).buffers@ == (*final(it.buffers))@,
                b.wf(),
                cycle_phases::all_in_heap(c, b.buffers),
                b.buffers == buffer::deep(it.buffers@),
                !done ==> b.bi == it.buf_idx && b.ei == it.next_elem(),
                done ==> buffer::seek(b.buffers, b.bi, b.ei).0 >= b.buffers.len(),
                b.s == lxr.cycle_state(),
                self.stats == (CycleCollectorStats {
                    objects_in_mark: b.visited,
                    ..old(self).stats
                }),
                buffer::producer(lxr.current_pool(), *cand_buffer) == p0.push_all(b.out),
                buffer::producer(lxr.current_pool(), *cand_buffer).wf(),
                cycle_phases::mark_buffers(c, vec_index, b) == cycle_phases::mark_buffers(
                    c,
                    vec_index,
                    b0,
                ),
            decreases b.pending().len(), !done as int,
        {
            match it.next() {
                Some(cand) => {
                    let o = *cand;
                    proof {
                        cycle_phases::mark_buffer_step_progress(c, vec_index, b);
                    }
                    let ghost f = cycle_phases::mark_buffer_step(c, vec_index, b);
                    proof {
                        let bi = it.buf_idx as int;
                        assert(b.buffers[bi].update(it.elem_idx as int, o) =~= b.buffers[bi]);
                        assert(buffer::deep(it.buffers@) =~= b.buffers);
                    }
                    if self.should_mark(lxr, o, vec_index) {
                        lxr.set_candidate_status(o, 0);
                        self.mark(o, heap, lxr, dfs_stack, cand_buffer);
                        proof {
                            let w = cycle_model::mark_all(
                                c,
                                cycle_model::walk_from(b.s.tagged(o, 0), o, b.visited, 0),
                            );
                            buffer::push_all_of_concat(p0, b.out, w.out);
                        }
                    } else {
                        if lxr.strong_count(o) > 0 {
                            lxr.set_candidate_status(o, 0);
                        }
                        it.swap_remove_current();
                    }
                    proof {
                        b = f;
                    }
                },
                None => {
                    done = true;
                },
            }
        }
    }

    /// Reports those of the candidates of the pool with tag `vec_index` that
    /// are to be marked from, with the object graph around them. The report is
    /// then ready to be written out, and an empty one takes its place.
    fn report_candidates_sub_graph(
        &self,
        heap: &Heap,
        lxr: &mut Lxr,
        candidates: &mut FinalBuffers<ObjectReference>,
        vec_index: u8,
    )
        requires
            heap.wf(),
            old(lxr).wf(),
            cycle_phases::all_in_heap(old(lxr).snapshot(*heap), old(candidates)@),
        ensures
            final(lxr).wf(),
            final(candidates)@ == old(candidates)@,
            *final(lxr) == (Lxr {
                graph_reporter: final(lxr).graph_reporter,
                graph_report_mark: final(lxr).graph_report_mark,
                finished_reports: final(lxr).finished_reports,
                ..*old(lxr)
            }),
            final(lxr).graph_reporter.is_blank(),
            wrote_report(*old(lxr), *final(lxr), *heap, vec_index, old(candidates)@.flatten()),
    {
        let ghost c = lxr.snapshot(*heap);
        let ghost s = lxr.cycle_state();
        let ghost b = candidates@;
        let ghost flat = b.flatten();
        let ghost w0 = reported_so_far(*lxr);
        let ghost mut k: int = 0;
        proof {
            buffer::pending_from_start(b);
            cycle_phases::flatten_in_heap(c, b);
            assert(flat.skip(0) =~= flat);
            assert(flat.take(0) =~= Seq::<ObjectReference>::empty());
        }
        let mut it = candidates.iter_mut();
        let mut done: bool = false;
        while !done
            invariant
                heap.wf(),
                *lxr == (Lxr {
                    graph_reporter: lxr.graph_reporter,
                    graph_report_mark: lxr.graph_report_mark,
                    ..*old(lxr)
                }),
                lxr.graph_reporter == (GcCycleReport {
                    objects: lxr.graph_reporter.objects,
                    candidates: lxr.graph_reporter.candidates,
                    ..old(lxr).graph_reporter
                }),
                c == old(lxr).snapshot(*heap),
                s == old(lxr).cycle_state(),
                c.holds(flat),
                flat == b.flatten(),
                !done ==> it.wf(),
                buffer::deep(it.buffers@) == b,
                after_borrow(candidates).buffers@ == (*final(it.buffers))@,
                0 <= k <= flat.len(),
                !done ==> it.pending() == flat.skip(k),
                done ==> k == flat.len(),
                reported_so_far(*lxr) == cycle_phases::report_each(
                    *heap,
                    s,
                    vec_index,
                    w0,
                    flat.take(k),
                ),
            decreases flat.len() - k, !done as int,
        {
            proof {
                buffer::seek_skips_nothing(b, it.buf_idx as int, it.next_elem());
            }
            match it.next() {
                Some(cand) => {
                    let o = *cand;
                    proof {
                        assert(flat.skip(k)[0] == flat[k]);
                        assert(flat.take(k + 1).drop_last() =~= flat.take(k));
                        assert(flat.skip(k).skip(1) =~= flat.skip(k + 1));
                        k = k + 1;
                    }
                    if self.should_mark(lxr, o, vec_index) {
                        lxr.graph_reporter.mark_candidate_sub_graph(
                            heap,
                            &lxr.tables,
                            &mut lxr.graph_report_mark,
                            o,
                        );
                    }
                    proof {
                        let bi = it.buf_idx as int;
                        assert(b[bi].update(it.elem_idx as int, o) =~= b[bi]);
                        assert(buffer::deep(it.buffers@) =~= b);
                    }
                },
                None => {
                    done = true;
                },
            }
        }
        assert(flat.take(k) =~= flat);
        let mut report = GcCycleReport::new();
        std::mem::swap(&mut report, &mut lxr.graph_reporter);
        lxr.finished_reports.push(report);
    }
}

/// Whether `new` has one finished report more than `old`: the report of `old`
/// with those of the candidates `xs` of the pool with tag `vec_index` that are
/// to be marked from, and the object graph around them.
pub open spec fn wrote_report(
    old: Lxr,
    new: Lxr,
    heap: Heap,
    vec_index: u8,
    xs: Seq<ObjectReference>,
) -> bool {
    let report = new.finished_reports@.last();
    let w = cycle_phases::report_each(
        heap,
        old.cycle_state(),
        vec_index,
        reported_so_far(old),
        xs,
    );
    &&& new.finished_reports@ == old.finished_reports@.push(report)
    &&& report == (GcCycleReport {
        objects: report.objects,
        candidates: report.candidates,
        ..old.graph_reporter
    })
    &&& graphs_project::record_views(report.objects@) == w.objects
    &&& report.candidates@ == w.candidates
    &&& new.graph_report_mark@ == w.marks
}

/// What is in the report and in the table of reported granules.
pub open spec fn reported_so_far(lxr: Lxr) -> ReportWalk {
    ReportWalk {
        marks: lxr.graph_report_mark@,
        objects: graphs_project::record_views(lxr.graph_reporter.objects@),
        candidates: lxr.graph_reporter.candidates@,
    }
}

/// The number of the pool that is drained next to pool `curr`.
pub open spec fn next_pool(curr: u8) -> int {
    (curr + 1) % 3
}

/// What a collection comes to.
pub struct Collection {
    /// The state of the tables.
    pub s: CycleState,
    /// The counters.
    pub stats: CycleCollectorStats,
    /// The objects that became candidates while marking.
    pub mark_out: Seq<ObjectReference>,
    /// The objects that became candidates while collecting.
    pub collect_out: Seq<ObjectReference>,
}

/// The collection of the candidates `buffers` of the pool with tag `vec_index`:
/// first all of them are marked from, then all of those are scanned, then all
/// of those are collected.
pub open spec fn collect_pool(
    c: Snapshot,
    s: CycleState,
    buffers: Seq<Seq<ObjectReference>>,
    vec_index: u8,
    stats: CycleCollectorStats,
) -> Collection {
    let m = cycle_phases::mark_buffers(
        c,
        vec_index,
        cycle_phases::buffers_from(s, buffers, stats.objects_in_mark),
    );
    let left = m.buffers.flatten();
    let sc = cycle_phases::scan_each(
        c,
        cycle_phases::carry(m.s, stats.objects_in_scan, stats.objects_in_scan_black),
        left,
    );
    let co = cycle_phases::collect_each(
        c,
        cycle_phases::carry(sc.s, stats.objects_in_collect, 0),
        left,
    );
    Collection {
        s: co.s,
        stats: CycleCollectorStats {
            raw_cycle_candidates: buffers.flatten().len() as usize,
            candidates_after_filter: left.len() as usize,
            objects_in_mark: m.visited,
            objects_in_scan: sc.visited,
            objects_in_scan_black: sc.nested,
            objects_in_collect: co.visited,
            satb_map_size: c.satb.len() as usize,
            ..stats
        },
        mark_out: m.out,
        collect_out: co.out,
    }
}

/// The contents of a pool as they come out of it.
pub open spec fn drained(pool: buffer::PoolView<ObjectReference>) -> Seq<Seq<ObjectReference>> {
    pool.completed + pool.available
}

/// A pool from which everything was drained.
pub open spec fn emptied(
    pool: buffer::PoolView<ObjectReference>,
) -> buffer::PoolView<ObjectReference> {
    buffer::PoolView { completed: Seq::empty(), available: Seq::empty(), ..pool }
}

/// A pool after one producer has pushed `xs` and finished.
pub open spec fn filled(
    pool: buffer::PoolView<ObjectReference>,
    xs: Seq<ObjectReference>,
) -> buffer::PoolView<ObjectReference> {
    pool.acquire().push_all(xs).close()
}

/// What the collection of the next pool does to the plan.
pub open spec fn collected_one_pool(
    old_cc: CycleCollector,
    new_cc: CycleCollector,
    old: Lxr,
    new: Lxr,
    heap: Heap,
) -> bool {
    let curr = old.curr_vec as int;
    let next = next_pool(old.curr_vec);
    let last = 3 - curr - next;
    let b = drained(old.candidate_pools@[next]@);
    let r = collect_pool(
        old.snapshot(heap),
        unreported(old.cycle_state()),
        b,
        (next + 1) as u8,
        old_cc.stats,
    );
    &&& new.cycle_state() == r.s
    &&& new_cc.stats == r.stats
    &&& new.candidate_pools@[next]@ == emptied(old.candidate_pools@[next]@)
    &&& new.candidate_pools@[curr]@ == filled(
        old.candidate_pools@[curr]@,
        r.mark_out + r.collect_out,
    )
    &&& new.candidate_pools@[last] == old.candidate_pools@[last]
    &&& wrote_report(old, new, heap, (next + 1) as u8, b.flatten())
    &&& new.graph_reporter.is_blank_but_freed()
}

/// The state with an empty list of reclaimed objects.
pub open spec fn unreported(s: CycleState) -> CycleState {
    CycleState { freed: Seq::empty(), ..s }
}

impl CycleCollector {
    /// Cycle collection over one pool of candidates: the one that was filled
    /// longest ago. The pool that takes new candidates stays the same.
    #[verifier::rlimit(60)]
    #[verifier::spinoff_prover]
    pub fn single_buff_gc(
        &mut self,
        heap: &Heap,
        lxr: &mut Lxr,
        dfs_stack: &mut Vec<ObjectReference>,
        nested_stack: &mut Vec<ObjectReference>,
    )
        requires
            heap.wf(),
            old(lxr).wf(),
            old(lxr).current_pool()@.wf(),
            old(lxr).snapshot(*heap).covers(old(lxr).cycle_state().color),
            ({
                let b = drained(old(lxr).candidate_pools@[next_pool(old(lxr).curr_vec)]@);
                &&& cycle_phases::all_in_heap(old(lxr).snapshot(*heap), b)
                &&& b.flatten().len() <= usize::MAX
            }),
            old(dfs_stack)@.len() == 0,
            old(nested_stack)@.len() == 0,
        ensures
            final(lxr).wf(),
            final(lxr).same_but_collection(*old(lxr)),
            !final(lxr).in_cycle_collection,
            final(dfs_stack)@.len() == 0,
            final(nested_stack)@.len() == 0,
            collected_one_pool(*old(self), *final(self), *old(lxr), *final(lxr), *heap),
    {
        let ghost c = lxr.snapshot(*heap);
        let next: usize = ((lxr.curr_vec + 1) % NUM_OF_CANDIDATES_VECTORS) as usize;
        let vec_index: u8 = (lxr.curr_vec + 1) % NUM_OF_CANDIDATES_VECTORS + 1;
        let ghost b = drained(lxr.candidate_pools@[next as int]@);
        let mut candidates = lxr.candidate_pools[next].into_final_buffers();
        self.report_candidates_sub_graph(heap, lxr, &mut candidates, vec_index);
        let ghost s1 = lxr.cycle_state();
        assert(s1 =~= unreported(old(lxr).cycle_state()));
        self.stats.raw_cycle_candidates = candidates.len();

        // One handle for both phases that make candidates: nothing drains the
        // pool in between.
        let curr: usize = lxr.curr_vec as usize;
        proof {
            buffer::acquire_loses_nothing(lxr.candidate_pools@[curr as int]@);
        }
        let mut cand_buffer = lxr.candidate_pools[curr].local_buffer();
        let ghost p0 = buffer::producer(lxr.current_pool(), cand_buffer);

        self.mark_buffer(heap, lxr, &mut candidates, vec_index, dfs_stack, &mut cand_buffer);
        let ghost m = cycle_phases::mark_buffers(
            c,
            vec_index,
            cycle_phases::buffers_from(s1, b, old(self).stats.objects_in_mark),
        );
        proof {
            let from = cycle_phases::buffers_from(s1, b, old(self).stats.objects_in_mark);
            cycle_phases::mark_buffers_covers(c, vec_index, from);
            cycle_phases::mark_buffers_shrinks(c, vec_index, from);
        }
        self.stats.candidates_after_filter = candidates.len();

        self.scan_buffer(heap, lxr, &mut candidates, dfs_stack, nested_stack);
        let ghost s3 = lxr.cycle_state();

        lxr.in_cycle_collection = false;
        assert(lxr.cycle_state() =~= s3);

        self.collect_buffer(
            heap,
            lxr,
            &mut candidates,
            dfs_stack,
            nested_stack,
            &mut cand_buffer,
        );
        let ghost co = cycle_phases::collect_each(
            c,
            cycle_phases::carry(s3, old(self).stats.objects_in_collect, 0),
            m.buffers.flatten(),
        );
        proof {
            buffer::push_all_of_concat(p0, m.out, co.out);
        }
        let ghost s4 = lxr.cycle_state();
        cand_buffer.close(&mut lxr.candidate_pools[curr]);
        assert(lxr.cycle_state() =~= s4);
        self.stats.satb_map_size = lxr.satb_map.len();
    }

    /// Drains the pool that comes `i` places after the next one, and returns
    /// its candidates.
    fn drain_round(&self, lxr: &mut Lxr, i: u8) -> (r: FinalBuffers<ObjectReference>)
        requires
            old(lxr).wf(),
            i < 3,
        ensures
            final(lxr).wf(),
            *final(lxr) == (Lxr { candidate_pools: final(lxr).candidate_pools, ..*old(lxr) }),
            ({
                let p = visited_pool(old(lxr).curr_vec, i as int);
                &&& r@ == drained(old(lxr).candidate_pools@[p]@)
                &&& final(lxr).candidate_pools@[p]@ == emptied(old(lxr).candidate_pools@[p]@)
                &&& forall|q: int|
                    #![trigger final(lxr).candidate_pools@[q]]
                    0 <= q < 3 && q != p ==> final(lxr).candidate_pools@[q]
                        == old(lxr).candidate_pools@[q]
            }),
    {
        let next: usize = ((lxr.curr_vec + i + 1) % NUM_OF_CANDIDATES_VECTORS) as usize;
        lxr.candidate_pools[next].into_final_buffers()
    }

    /// The mark phase over the candidates of the pool that comes `i` places
    /// after the next one, while the pool before that takes new candidates.
    ///
    /// The handle on that pool lives for this round only: new candidates are
    /// tagged with the pool that takes them, so a handle must not outlive the
    /// change of that pool.
    fn mark_round(
        &mut self,
        heap: &Heap,
        lxr: &mut Lxr,
        candidates: &mut FinalBuffers<ObjectReference>,
        i: u8,
        dfs_stack: &mut Vec<ObjectReference>,
    )
        requires
            heap.wf(),
            old(lxr).wf(),
            i < 3,
            old(lxr).candidate_pools@[filled_pool(old(lxr).curr_vec, i as int)]@.wf(),
            cycle_phases::all_in_heap(old(lxr).snapshot(*heap), old(candidates)@),
            old(lxr).snapshot(*heap).covers(old(lxr).cycle_state().color),
            old(dfs_stack)@.len() == 0,
        ensures
            final(lxr).wf(),
            (Lxr {
                candidate_pools: old(lxr).candidate_pools,
                ..*final(lxr)
            }).same_but_cycle_state(*old(lxr)),
            old(lxr).snapshot(*heap).covers(final(lxr).cycle_state().color),
            cycle_phases::all_in_heap(old(lxr).snapshot(*heap), final(candidates)@),
            final(candidates)@.flatten().len() <= old(candidates)@.flatten().len(),
            final(dfs_stack)@.len() == 0,
            ({
                let p = filled_pool(old(lxr).curr_vec, i as int);
                let b = mark_round_of(
                    old(lxr).curr_vec,
                    old(lxr).snapshot(*heap),
                    i as int,
                    old(lxr).cycle_state(),
                    old(candidates)@,
                    old(self).stats.objects_in_mark,
                );
                &&& final(lxr).cycle_state() == b.s
                &&& final(candidates)@ == b.buffers
                &&& final(self).stats == (CycleCollectorStats {
                    objects_in_mark: b.visited,
                    ..old(self).stats
                })
                &&& final(lxr).candidate_pools@[p]@ == filled(
                    old(lxr).candidate_pools@[p]@,
                    b.out,
                )
                &&& final(lxr).candidate_pools@[p]@.wf()
                &&& forall|q: int|
                    #![trigger final(lxr).candidate_pools@[q]]
                    0 <= q < 3 && q != p ==> final(lxr).candidate_pools@[q]
                        == old(lxr).candidate_pools@[q]
            }),
    {
        let entry_vec: u8 = lxr.curr_vec;
        let vec_index: u8 = (entry_vec + i + 1) % NUM_OF_CANDIDATES_VECTORS + 1;
        lxr.curr_vec = (entry_vec + i) % NUM_OF_CANDIDATES_VECTORS;
        let curr: usize = lxr.curr_vec as usize;
        let ghost c = round_snapshot(old(lxr).snapshot(*heap), old(lxr).curr_vec, i as int);
        let ghost from = cycle_phases::buffers_from(
            lxr.cycle_state(),
            candidates@,
            self.stats.objects_in_mark,
        );
        assert(lxr.cycle_state() =~= old(lxr).cycle_state());
        assert(lxr.snapshot(*heap) =~= c);
        let mut cand_buffer = lxr.candidate_pools[curr].local_buffer();
        assert(lxr.cycle_state() =~= old(lxr).cycle_state());
        self.mark_buffer(heap, lxr, candidates, vec_index, dfs_stack, &mut cand_buffer);
        proof {
            cycle_phases::mark_buffers_covers(c, vec_index, from);
            cycle_phases::mark_buffers_shrinks(c, vec_index, from);
        }
        let ghost s1 = lxr.cycle_state();
        cand_buffer.close(&mut lxr.candidate_pools[curr]);
        lxr.curr_vec = entry_vec;
        assert(lxr.cycle_state() =~= s1);
    }
}

/// What stays the same while the pool that comes `i` places after the current
/// one takes new candidates.
pub open spec fn round_snapshot(c: Snapshot, curr: u8, i: int) -> Snapshot {
    Snapshot { tag: (filled_pool(curr, i) + 1) as u8, ..c }
}

/// The number of the pool that is visited `i` places after the next one.
pub open spec fn visited_pool(curr: u8, i: int) -> int {
    (curr + i + 1) % 3
}

/// The number of the pool that takes new candidates while the candidates of
/// that pool are marked from.
pub open spec fn filled_pool(curr: u8, i: int) -> int {
    (curr + i) % 3
}

/// The mark phase over the candidates `buffers` of the pool that is visited `i`
/// places after the next one.
pub open spec fn mark_round_of(
    curr: u8,
    c: Snapshot,
    i: int,
    s: CycleState,
    buffers: Seq<Seq<ObjectReference>>,
    visited: usize,
) -> BufferWalk {
    cycle_phases::mark_buffers(
        round_snapshot(c, curr, i),
        (visited_pool(curr, i) + 1) as u8,
        cycle_phases::buffers_from(s, buffers, visited),
    )
}

/// The candidates of three pools, in the order in which the pools are visited.
pub struct Drained {
    /// Those of the next pool.
    pub b0: FinalBuffers<ObjectReference>,
    /// Those of the pool after it.
    pub b1: FinalBuffers<ObjectReference>,
    /// Those of the pool that takes new candidates.
    pub b2: FinalBuffers<ObjectReference>,
}

impl Drained {
    /// All candidates in a row.
    pub open spec fn all(&self) -> Seq<ObjectReference> {
        self.b0@.flatten() + self.b1@.flatten() + self.b2@.flatten()
    }

    /// Whether every candidate is in the heap.
    pub open spec fn all_in_heap(&self, c: Snapshot) -> bool {
        &&& cycle_phases::all_in_heap(c, self.b0@)
        &&& cycle_phases::all_in_heap(c, self.b1@)
        &&& cycle_phases::all_in_heap(c, self.b2@)
    }

    /// Whether these are the candidates of the pools.
    pub open spec fn are_from(
        &self,
        pools: Seq<buffer::BufferPool<ObjectReference>>,
        curr: u8,
    ) -> bool {
        &&& self.b0@ == drained(pools[visited_pool(curr, 0)]@)
        &&& self.b1@ == drained(pools[visited_pool(curr, 1)]@)
        &&& self.b2@ == drained(pools[visited_pool(curr, 2)]@)
    }

    /// The number of candidates.
    pub fn len(&self) -> (r: usize)
        requires
            self.all().len() <= usize::MAX,
        ensures
            r == self.all().len(),
    {
        self.b0.len() + self.b1.len() + self.b2.len()
    }
}

/// The mark phase over all pools.
pub open spec fn mark_rounds(
    curr: u8,
    c: Snapshot,
    s: CycleState,
    d: (Seq<Seq<ObjectReference>>, Seq<Seq<ObjectReference>>, Seq<Seq<ObjectReference>>),
    visited: usize,
) -> (BufferWalk, BufferWalk, BufferWalk) {
    let m0 = mark_round_of(curr, c, 0, s, d.0, visited);
    let m1 = mark_round_of(curr, c, 1, m0.s, d.1, m0.visited);
    let m2 = mark_round_of(curr, c, 2, m1.s, d.2, m1.visited);
    (m0, m1, m2)
}

/// What a collection of all pools comes to.
pub struct FullCollection {
    /// The state of the tables.
    pub s: CycleState,
    /// The counters.
    pub stats: CycleCollectorStats,
    /// The objects that became candidates while the candidates of each pool
    /// were marked from, in the order in which the pools are visited.
    pub mark_out: (Seq<ObjectReference>, Seq<ObjectReference>, Seq<ObjectReference>),
    /// The objects that became candidates while collecting.
    pub collect_out: Seq<ObjectReference>,
}

/// The collection of all pools: the candidates of all of them are marked from
/// before any is scanned, and all are scanned before any is collected.
pub open spec fn collect_all_pools(
    lxr: Lxr,
    heap: Heap,
    d: (Seq<Seq<ObjectReference>>, Seq<Seq<ObjectReference>>, Seq<Seq<ObjectReference>>),
    stats: CycleCollectorStats,
) -> FullCollection {
    let c = lxr.snapshot(heap);
    let (m0, m1, m2) = mark_rounds(
        lxr.curr_vec,
        c,
        unreported(lxr.cycle_state()),
        d,
        stats.objects_in_mark,
    );
    let left = m0.buffers.flatten() + m1.buffers.flatten() + m2.buffers.flatten();
    let sc = cycle_phases::scan_each(
        c,
        cycle_phases::carry(m2.s, stats.objects_in_scan, stats.objects_in_scan_black),
        left,
    );
    let co = cycle_phases::collect_each(
        c,
        cycle_phases::carry(sc.s, stats.objects_in_collect, 0),
        left,
    );
    FullCollection {
        s: co.s,
        stats: CycleCollectorStats {
            raw_cycle_candidates: (d.0.flatten() + d.1.flatten() + d.2.flatten()).len() as usize,
            candidates_after_filter: left.len() as usize,
            objects_in_mark: m2.visited,
            objects_in_scan: sc.visited,
            objects_in_scan_black: sc.nested,
            objects_in_collect: co.visited,
            satb_map_size: c.satb.len() as usize,
            ..stats
        },
        mark_out: (m0.out, m1.out, m2.out),
        collect_out: co.out,
    }
}

/// Whether the report says what `w` says of objects and candidates.
pub open spec fn report_says(report: GcCycleReport, w: ReportWalk) -> bool {
    &&& graphs_project::record_views(report.objects@) == w.objects
    &&& report.candidates@ == w.candidates
}

/// Whether the report says nothing but of objects and candidates.
pub open spec fn says_nothing_else(report: GcCycleReport) -> bool {
    &&& report.roots@ == Seq::<graphs_project::ObjectId>::empty()
    &&& report.allocated@ == Seq::<graphs_project::ObjectId>::empty()
    &&& report.rc_freed@ == Seq::<graphs_project::ObjectId>::empty()
    &&& report.cycle_collector_freed@ == Seq::<graphs_project::ObjectId>::empty()
}

/// A new report, with the granules that were reported before.
pub open spec fn report_from(marks: Map<usize, u8>) -> ReportWalk {
    ReportWalk { marks, objects: Seq::empty(), candidates: Seq::empty() }
}

/// Whether `new` has one finished report more than `old` for each pool. The first
/// has what the report of `old` had beside objects and candidates.
pub open spec fn wrote_all_reports(
    old: Lxr,
    new: Lxr,
    heap: Heap,
    d: (Seq<Seq<ObjectReference>>, Seq<Seq<ObjectReference>>, Seq<Seq<ObjectReference>>),
) -> bool {
    let curr = old.curr_vec;
    let s = old.cycle_state();
    let n = old.finished_reports@.len() as int;
    let w0 = cycle_phases::report_each(
        heap,
        s,
        (visited_pool(curr, 0) + 1) as u8,
        reported_so_far(old),
        d.0.flatten(),
    );
    let w1 = cycle_phases::report_each(
        heap,
        unreported(s),
        (visited_pool(curr, 1) + 1) as u8,
        report_from(w0.marks),
        d.1.flatten(),
    );
    let w2 = cycle_phases::report_each(
        heap,
        unreported(s),
        (visited_pool(curr, 2) + 1) as u8,
        report_from(w1.marks),
        d.2.flatten(),
    );
    &&& new.finished_reports@.len() == n + 3
    &&& forall|k: int|
        0 <= k < n ==> #[trigger] new.finished_reports@[k] == old.finished_reports@[k]
    &&& report_says(new.finished_reports@[n], w0)
    &&& new.finished_reports@[n] == (GcCycleReport {
        objects: new.finished_reports@[n].objects,
        candidates: new.finished_reports@[n].candidates,
        ..old.graph_reporter
    })
    &&& report_says(new.finished_reports@[n + 1], w1)
    &&& says_nothing_else(new.finished_reports@[n + 1])
    &&& report_says(new.finished_reports@[n + 2], w2)
    &&& says_nothing_else(new.finished_reports@[n + 2])
    &&& new.graph_report_mark@ == w2.marks
}

impl CycleCollector {
    /// Drains all pools.
    fn drain_pools(&self, lxr: &mut Lxr) -> (r: Drained)
        requires
            old(lxr).wf(),
        ensures
            final(lxr).wf(),
            *final(lxr) == (Lxr { candidate_pools: final(lxr).candidate_pools, ..*old(lxr) }),
            final(lxr).cycle_state() == old(lxr).cycle_state(),
            r.are_from(old(lxr).candidate_pools@, old(lxr).curr_vec),
            forall|p: int|
                #![trigger final(lxr).candidate_pools@[p]]
                0 <= p < 3 ==> final(lxr).candidate_pools@[p]@ == emptied(
                    old(lxr).candidate_pools@[p]@,
                ),
    {
        let b0 = self.drain_round(lxr, 0);
        let b1 = self.drain_round(lxr, 1);
        let b2 = self.drain_round(lxr, 2);
        assert(lxr.cycle_state() =~= old(lxr).cycle_state());
        Drained { b0, b1, b2 }
    }

    /// Reports on the candidates of all pools.
    fn report_pools(&self, heap: &Heap, lxr: &mut Lxr, d: &mut Drained)
        requires
            heap.wf(),
            old(lxr).wf(),
            old(d).all_in_heap(old(lxr).snapshot(*heap)),
        ensures
            final(lxr).wf(),
            final(d).b0@ == old(d).b0@,
            final(d).b1@ == old(d).b1@,
            final(d).b2@ == old(d).b2@,
            *final(lxr) == (Lxr {
                graph_reporter: final(lxr).graph_reporter,
                graph_report_mark: final(lxr).graph_report_mark,
                finished_reports: final(lxr).finished_reports,
                ..*old(lxr)
            }),
            final(lxr).graph_reporter.is_blank(),
            final(lxr).cycle_state() == unreported(old(lxr).cycle_state()),
            wrote_all_reports(
                *old(lxr),
                *final(lxr),
                *heap,
                (old(d).b0@, old(d).b1@, old(d).b2@),
            ),
    {
        let curr: u8 = lxr.curr_vec;
        let t0: u8 = (curr + 1) % NUM_OF_CANDIDATES_VECTORS + 1;
        let t1: u8 = (curr + 2) % NUM_OF_CANDIDATES_VECTORS + 1;
        let t2: u8 = (curr + 3) % NUM_OF_CANDIDATES_VECTORS + 1;
        self.report_candidates_sub_graph(heap, lxr, &mut d.b0, t0);
        assert(lxr.cycle_state() =~= unreported(old(lxr).cycle_state()));
        assert(reported_so_far(*lxr) =~= report_from(lxr.graph_report_mark@));
        self.report_candidates_sub_graph(heap, lxr, &mut d.b1, t1);
        assert(lxr.cycle_state() =~= unreported(old(lxr).cycle_state()));
        assert(reported_so_far(*lxr) =~= report_from(lxr.graph_report_mark@));
        self.report_candidates_sub_graph(heap, lxr, &mut d.b2, t2);
        assert(lxr.cycle_state() =~= unreported(old(lxr).cycle_state()));
    }

    /// The mark phase over the candidates of all pools.
    fn mark_pools(
        &mut self,
        heap: &Heap,
        lxr: &mut Lxr,
        d: &mut Drained,
        dfs_stack: &mut Vec<ObjectReference>,
    )
        requires
            heap.wf(),
            old(lxr).wf(),
            forall|p: int| 0 <= p < 3 ==> (#[trigger] old(lxr).candidate_pools@[p])@.wf(),
            old(d).all_in_heap(old(lxr).snapshot(*heap)),
            old(lxr).snapshot(*heap).covers(old(lxr).cycle_state().color),
            old(dfs_stack)@.len() == 0,
        ensures
            final(lxr).wf(),
            (Lxr {
                candidate_pools: old(lxr).candidate_pools,
                ..*final(lxr)
            }).same_but_cycle_state(*old(lxr)),
            old(lxr).snapshot(*heap).covers(final(lxr).cycle_state().color),
            final(d).all_in_heap(old(lxr).snapshot(*heap)),
            final(d).all().len() <= old(d).all().len(),
            final(dfs_stack)@.len() == 0,
            forall|p: int| 0 <= p < 3 ==> (#[trigger] final(lxr).candidate_pools@[p])@.wf(),
            ({
                let curr = old(lxr).curr_vec;
                let (m0, m1, m2) = mark_rounds(
                    curr,
                    old(lxr).snapshot(*heap),
                    old(lxr).cycle_state(),
                    (old(d).b0@, old(d).b1@, old(d).b2@),
                    old(self).stats.objects_in_mark,
                );
                let (f0, f1, f2) = (filled_pool(curr, 0), filled_pool(curr, 1), filled_pool(
                    curr,
                    2,
                ));
                &&& final(lxr).cycle_state() == m2.s
                &&& final(d).b0@ == m0.buffers
                &&& final(d).b1@ == m1.buffers
                &&& final(d).b2@ == m2.buffers
                &&& final(self).stats == (CycleCollectorStats {
                    objects_in_mark: m2.visited,
                    ..old(self).stats
                })
                &&& final(lxr).candidate_pools@[f0]@ == filled(
                    old(lxr).candidate_pools@[f0]@,
                    m0.out,
                )
                &&& final(lxr).candidate_pools@[f1]@ == filled(
                    old(lxr).candidate_pools@[f1]@,
                    m1.out,
                )
                &&& final(lxr).candidate_pools@[f2]@ == filled(
                    old(lxr).candidate_pools@[f2]@,
                    m2.out,
                )
            }),
    {
        self.mark_round(heap, lxr, &mut d.b0, 0, dfs_stack);
        self.mark_round(heap, lxr, &mut d.b1, 1, dfs_stack);
        self.mark_round(heap, lxr, &mut d.b2, 2, dfs_stack);
    }

    /// The scan phase over the candidates of all pools.
    fn scan_pools(
        &mut self,
        heap: &Heap,
        lxr: &mut Lxr,
        d: &mut Drained,
        dfs_stack: &mut Vec<ObjectReference>,
        nested_stack: &mut Vec<ObjectReference>,
    )
        requires
            heap.wf(),
            old(lxr).wf(),
            old(d).all_in_heap(old(lxr).snapshot(*heap)),
            old(lxr).snapshot(*heap).covers(old(lxr).cycle_state().color),
            old(dfs_stack)@.len() == 0,
            old(nested_stack)@.len() == 0,
        ensures
            final(lxr).wf(),
            final(lxr).same_but_cycle_state(*old(lxr)),
            final(d).b0@ == old(d).b0@,
            final(d).b1@ == old(d).b1@,
            final(d).b2@ == old(d).b2@,
            final(dfs_stack)@.len() == 0,
            final(nested_stack)@.len() == 0,
            ({
                let w = cycle_phases::scan_each(
                    old(lxr).snapshot(*heap),
                    cycle_phases::carry(
                        old(lxr).cycle_state(),
                        old(self).stats.objects_in_scan,
                        old(self).stats.objects_in_scan_black,
                    ),
                    old(d).all(),
                );
                &&& final(lxr).cycle_state() == w.s
                &&& final(self).stats == (CycleCollectorStats {
                    objects_in_scan: w.visited,
                    objects_in_scan_black: w.nested,
                    ..old(self).stats
                })
            }),
    {
        let ghost c = lxr.snapshot(*heap);
        let ghost (l0, l1, l2) = (d.b0@.flatten(), d.b1@.flatten(), d.b2@.flatten());
        let ghost w = cycle_phases::carry(
            lxr.cycle_state(),
            self.stats.objects_in_scan,
            self.stats.objects_in_scan_black,
        );
        self.scan_buffer(heap, lxr, &mut d.b0, dfs_stack, nested_stack);
        self.scan_buffer(heap, lxr, &mut d.b1, dfs_stack, nested_stack);
        self.scan_buffer(heap, lxr, &mut d.b2, dfs_stack, nested_stack);
        proof {
            cycle_phases::scan_each_frame(c, w, l0);
            cycle_phases::scan_each_frame(c, cycle_phases::scan_each(c, w, l0), l1);
            cycle_phases::scan_each_of_concat(c, w, l0, l1);
            cycle_phases::scan_each_of_concat(c, w, l0 + l1, l2);
        }
    }

    /// The collect phase over the candidates of all pools. Writes to slots are no
    /// longer recorded when it begins.
    fn collect_pools(
        &mut self,
        heap: &Heap,
        lxr: &mut Lxr,
        d: &mut Drained,
        dfs_stack: &mut Vec<ObjectReference>,
        nested_stack: &mut Vec<ObjectReference>,
    )
        requires
            heap.wf(),
            old(lxr).wf(),
            !old(lxr).in_cycle_collection,
            old(lxr).current_pool()@.wf(),
            old(d).all_in_heap(old(lxr).snapshot(*heap)),
            old(dfs_stack)@.len() == 0,
            old(nested_stack)@.len() == 0,
        ensures
            final(lxr).wf(),
            final(lxr).same_but_candidates(*old(lxr)),
            final(dfs_stack)@.len() == 0,
            final(nested_stack)@.len() == 0,
            ({
                let w = cycle_phases::collect_each(
                    old(lxr).snapshot(*heap),
                    cycle_phases::carry(
                        old(lxr).cycle_state(),
                        old(self).stats.objects_in_collect,
                        0,
                    ),
                    old(d).all(),
                );
                &&& final(lxr).cycle_state() == w.s
                &&& final(lxr).current_pool()@ == filled(old(lxr).current_pool()@, w.out)
                &&& final(self).stats == (CycleCollectorStats {
                    objects_in_collect: w.visited,
                    ..old(self).stats
                })
            }),
    {
        let curr: usize = lxr.curr_vec as usize;
        let ghost c = lxr.snapshot(*heap);
        let ghost (l0, l1, l2) = (d.b0@.flatten(), d.b1@.flatten(), d.b2@.flatten());
        let ghost x = cycle_phases::carry(lxr.cycle_state(), self.stats.objects_in_collect, 0);
        let mut cand_buffer = lxr.candidate_pools[curr].local_buffer();
        let ghost p0 = buffer::producer(lxr.current_pool(), cand_buffer);
        assert(lxr.cycle_state() =~= old(lxr).cycle_state());
        self.collect_buffer(heap, lxr, &mut d.b0, dfs_stack, nested_stack, &mut cand_buffer);
        self.collect_buffer(heap, lxr, &mut d.b1, dfs_stack, nested_stack, &mut cand_buffer);
        self.collect_buffer(heap, lxr, &mut d.b2, dfs_stack, nested_stack, &mut cand_buffer);
        proof {
            let y0 = cycle_phases::collect_each(c, x, l0);
            let y1 = cycle_phases::collect_each(c, cycle_phases::carry(y0.s, y0.visited, 0), l1);
            let y2 = cycle_phases::collect_each(c, cycle_phases::carry(y1.s, y1.visited, 0), l2);
            cycle_phases::collect_each_of_concat(c, x, l0, l1);
            cycle_phases::collect_each_of_concat(c, x, l0 + l1, l2);
            buffer::push_all_of_concat(p0, y0.out, y1.out);
            buffer::push_all_of_concat(p0, y0.out + y1.out, y2.out);
        }
        let ghost s1 = lxr.cycle_state();
        cand_buffer.close(&mut lxr.candidate_pools[curr]);
        assert(lxr.cycle_state() =~= s1);
    }

    /// Cycle collection over all pools of candidates.
    ///
    /// A cycle whose members became candidates in different collections spans
    /// pools, so all candidates are marked from before any is scanned. All pools
    /// are drained first, so that nothing that this collection produces is
    /// consumed by it. Afterwards the pool that takes new candidates is the one
    /// that took them before.
    #[verifier::rlimit(60)]
    #[verifier::spinoff_prover]
    pub fn all_buff_gc(
        &mut self,
        heap: &Heap,
        lxr: &mut Lxr,
        dfs_stack: &mut Vec<ObjectReference>,
        nested_stack: &mut Vec<ObjectReference>,
    )
        requires
            heap.wf(),
            old(lxr).wf(),
            pools_ready(*old(lxr), *heap),
            old(lxr).snapshot(*heap).covers(old(lxr).cycle_state().color),
            old(dfs_stack)@.len() == 0,
            old(nested_stack)@.len() == 0,
        ensures
            final(lxr).wf(),
            final(lxr).same_but_collection(*old(lxr)),
            !final(lxr).in_cycle_collection,
            final(dfs_stack)@.len() == 0,
            final(nested_stack)@.len() == 0,
            collected_all_pools(*old(self), *final(self), *old(lxr), *final(lxr), *heap),
    {
        let ghost c = lxr.snapshot(*heap);
        let ghost stats = self.stats;
        let mut d = self.drain_pools(lxr);
        let ghost d0 = (d.b0@, d.b1@, d.b2@);
        assert(lxr.snapshot(*heap) =~= c);
        self.report_pools(heap, lxr, &mut d);
        let ghost reported = *lxr;
        assert(lxr.snapshot(*heap) =~= c);
        self.stats.raw_cycle_candidates = d.len();
        self.mark_pools(heap, lxr, &mut d, dfs_stack);
        assert(lxr.snapshot(*heap) =~= c);
        self.stats.candidates_after_filter = d.len();
        let ghost left = d.all();
        self.scan_pools(heap, lxr, &mut d, dfs_stack, nested_stack);
        let ghost s3 = lxr.cycle_state();
        lxr.in_cycle_collection = false;
        assert(lxr.cycle_state() =~= s3);
        assert(lxr.snapshot(*heap) =~= c);
        self.collect_pools(heap, lxr, &mut d, dfs_stack, nested_stack);
        self.stats.satb_map_size = lxr.satb_map.len();
    }
}

/// Whether the pools are well-formed, hold objects of the heap only, and are
/// small enough to be counted.
pub open spec fn pools_ready(lxr: Lxr, heap: Heap) -> bool {
    &&& forall|p: int| 0 <= p < 3 ==> (#[trigger] lxr.candidate_pools@[p])@.wf()
    &&& forall|p: int|
        0 <= p < 3 ==> cycle_phases::all_in_heap(
            lxr.snapshot(heap),
            drained((#[trigger] lxr.candidate_pools@[p])@),
        )
    &&& drained(lxr.candidate_pools@[0]@).flatten().len() + drained(
        lxr.candidate_pools@[1]@,
    ).flatten().len() + drained(lxr.candidate_pools@[2]@).flatten().len() <= usize::MAX
}

/// The candidates of the pools, in the order in which the pools are visited.
pub open spec fn all_drained(lxr: Lxr) -> (
    Seq<Seq<ObjectReference>>,
    Seq<Seq<ObjectReference>>,
    Seq<Seq<ObjectReference>>,
) {
    (
        drained(lxr.candidate_pools@[visited_pool(lxr.curr_vec, 0)]@),
        drained(lxr.candidate_pools@[visited_pool(lxr.curr_vec, 1)]@),
        drained(lxr.candidate_pools@[visited_pool(lxr.curr_vec, 2)]@),
    )
}

/// What the collection of all pools does to the plan.
pub open spec fn collected_all_pools(
    old_cc: CycleCollector,
    new_cc: CycleCollector,
    old: Lxr,
    new: Lxr,
    heap: Heap,
) -> bool {
    let curr = old.curr_vec;
    let d = all_drained(old);
    let r = collect_all_pools(old, heap, d, old_cc.stats);
    let pools = old.candidate_pools@;
    let (f0, f1, f2) = (filled_pool(curr, 0), filled_pool(curr, 1), filled_pool(curr, 2));
    &&& new.cycle_state() == r.s
    &&& new_cc.stats == r.stats
    &&& new.candidate_pools@[f0]@ == filled(
        filled(emptied(pools[f0]@), r.mark_out.0),
        r.collect_out,
    )
    &&& new.candidate_pools@[f1]@ == filled(emptied(pools[f1]@), r.mark_out.1)
    &&& new.candidate_pools@[f2]@ == filled(emptied(pools[f2]@), r.mark_out.2)
    &&& wrote_all_reports(old, new, heap, d)
    &&& new.graph_reporter.is_blank_but_freed()
}

impl CycleCollector {
    /// The whole collection: over all pools in a pause that runs the reference
    /// counting pipeline to its end, otherwise over one.
    ///
    /// What was recorded of slots for an earlier collection is forgotten first,
    /// so an object that is not black must have no logged slot.
    pub fn do_work(&mut self, heap: &Heap, lxr: &mut Lxr)
        requires
            heap.wf(),
            old(lxr).wf(),
            pools_ready(*old(lxr), *heap),
            (Snapshot { satb: Map::empty(), ..old(lxr).snapshot(*heap) }).covers(
                old(lxr).cycle_state().color,
            ),
        ensures
            final(lxr).wf(),
            final(lxr).satb_map@ == Map::<usize, Option<ObjectReference>>::empty(),
            !final(lxr).in_cycle_collection,
            ({
                let started = Lxr {
                    satb_map: final(lxr).satb_map,
                    in_cycle_collection: true,
                    ..*old(lxr)
                };
                &&& final(lxr).same_but_collection(started)
                &&& if old(lxr).current_pause == Some(Pause::FullRC) {
                    collected_all_pools(*old(self), *final(self), started, *final(lxr), *heap)
                } else {
                    collected_one_pool(*old(self), *final(self), started, *final(lxr), *heap)
                }
            }),
    {
        lxr.satb_map.clear();
        lxr.in_cycle_collection = true;
        // The two stacks that the traversals share. Two are enough: the phases
        // run one after the other, and at most one traversal runs inside
        // another.
        let mut dfs_stack: Vec<ObjectReference> = Vec::with_capacity(4096);
        let mut nested_stack: Vec<ObjectReference> = Vec::with_capacity(4096);
        assert(lxr.snapshot(*heap) =~= (Snapshot {
            satb: Map::empty(),
            ..old(lxr).snapshot(*heap)
        }));
        assert(lxr.cycle_state() =~= old(lxr).cycle_state());
        let full = match lxr.current_pause {
            Some(Pause::FullRC) => true,
            _ => false,
        };
        if full {
            self.all_buff_gc(heap, lxr, &mut dfs_stack, &mut nested_stack);
        } else {
            self.single_buff_gc(heap, lxr, &mut dfs_stack, &mut nested_stack);
        }
    }
}

} // verus!
