//! The state of the plan.

use crate::plan::immix::Pause;
use crate::plan::lxr::buffer;
use crate::plan::lxr::buffer::{BufferPool, LocalBuffer};
use crate::plan::lxr::cycle_model::{CycleState, DeadStats, Snapshot};
use crate::plan::lxr::graphs_project::GcCycleReport;
use crate::plan::lxr::overflow_rc_cache::RefCountWithOverflow;
use crate::util::address::{granule, Block, ObjectReference};
use crate::util::rc::{RcTables, RefCountHelper, LOGGED_VALUE};
use crate::util::side_metadata::SideTable;
use crate::vm::heap::Heap;
use std::collections::HashMap;
use vstd::prelude::*;

verus! {

/// How many pools of candidates there are. A candidate is tagged with the
/// number of its pool plus one, and a tag has two bits.
pub const NUM_OF_CANDIDATES_VECTORS: u8 = 3;

/// The state of the plan.
pub struct Lxr {
    /// The side metadata.
    pub tables: RcTables,
    /// Access to the reference counts.
    pub rc: RefCountHelper,
    /// Reference counts without an upper limit.
    pub rc_with_overflow: RefCountWithOverflow,
    /// The pools of candidates.
    pub candidate_pools: Vec<BufferPool<ObjectReference>>,
    /// The pool that takes new candidates.
    pub curr_vec: u8,
    /// What a slot held before it was logged, for slots that were logged while
    /// cycle collection was under way.
    pub satb_map: HashMap<usize, Option<ObjectReference>>,
    /// Whether cycle collection is under way.
    pub in_cycle_collection: bool,
    /// The kind of the current pause.
    pub current_pause: Option<Pause>,
    /// The blocks in which a mature object died, one entry for each death.
    pub possibly_dead_mature_blocks: Vec<Block>,
    /// The large objects that were freed.
    pub freed_large_objects: Vec<ObjectReference>,
    /// The objects whose first word says that they are dead: the memory manager
    /// writes `DEAD_WORD` there.
    pub overwritten_objects: Vec<ObjectReference>,
    /// What was reclaimed, in numbers.
    pub stat: DeadStats,
    /// The report on the current collection.
    pub graph_reporter: GcCycleReport,
    /// Which granules a report has named.
    pub graph_report_mark: SideTable<u8>,
    /// Reports that are ready to be written out.
    pub finished_reports: Vec<GcCycleReport>,
    /// Packets of slots whose new referents have to be counted.
    pub inc_packets: Vec<Vec<usize>>,
    /// Packets of objects that lost a reference, for after the pause.
    pub lazy_dec_packets: Vec<Vec<ObjectReference>>,
    /// Packets of objects that lost a reference, for the pause itself.
    pub stw_dec_packets: Vec<Vec<ObjectReference>>,
    /// Whether decrements are left for after the pause.
    pub lazy_decrements: bool,
    /// Objects whose references a sanity trace counts, with the references that
    /// it has found so far.
    pub rc_sanity_objects: Vec<(ObjectReference, u8)>,
    /// What barriers counted.
    pub counters: BarrierCounters,
    /// Whether barriers count how often they run at all.
    pub takerate_measurement: bool,
    /// Whether the program is inside the part of it that is measured.
    pub inside_harness: bool,
}

/// What barriers counted. The counters wrap.
#[derive(Clone, Copy, Debug, PartialEq, Eq, Structural)]
pub struct BarrierCounters {
    /// Slow paths during cycle collection.
    pub barrier_slow_in_cc: usize,
    /// Slots whose old value was recorded during cycle collection.
    pub barrier_satb_inserts: usize,
    /// Barriers.
    pub fast_count: usize,
    /// Slow paths.
    pub slow_count: usize,
}

/// The first addresses of the blocks.
pub open spec fn block_starts(blocks: Seq<Block>) -> Seq<usize> {
    Seq::new(blocks.len(), |i: int| blocks[i].start)
}

/// How many elements fill a buffer of candidates.
pub const CANDIDATE_BUFFER_CAPACITY: usize = 4096;

impl Lxr {
    /// A plan for an empty heap.
    pub fn new(lazy_decrements: bool, takerate_measurement: bool) -> (r: Lxr)
        ensures
            r.wf(),
            r.tables.counts().wf(),
            r.cycle_state().counts.rc == Map::total(|g: usize| 0u8),
            r.cycle_state().counts.excess == Map::total(|g: usize| 0u32),
            r.cycle_state().strong == Map::total(|g: usize| 0u8),
            r.cycle_state().color == Map::total(|g: usize| 0u8),
            r.cycle_state().cand == Map::total(|g: usize| 0u8),
            r.cycle_state().straddle == Map::total(|g: usize| 0u8),
            r.rc_with_overflow.overflowed == 0,
            r.curr_vec == 0,
            forall|i: int|
                #![trigger r.candidate_pools@[i]]
                0 <= i < 3 ==> r.candidate_pools@[i]@.wf() && r.candidate_pools@[i]@.completed.len()
                    == 0 && r.candidate_pools@[i]@.available.len() == 0,
            r.satb_map@ == Map::<usize, Option<ObjectReference>>::empty(),
            !r.in_cycle_collection,
            r.current_pause is None,
            r.possibly_dead_mature_blocks@.len() == 0,
            r.freed_large_objects@.len() == 0,
            r.overwritten_objects@.len() == 0,
            r.tables.sanity_dead_cycle_count@ == Map::total(|g: usize| 0u8),
            r.tables.field_unlog@ == Map::total(|g: usize| LOGGED_VALUE),
            r.tables.inc_buffer_size == 0,
            r.stat == (DeadStats {
                dead_mature_objects: 0,
                dead_mature_volume: 0,
                dead_mature_rc_objects: 0,
                dead_mature_rc_volume: 0,
                dead_mature_los_objects: 0,
                dead_mature_los_volume: 0,
                dead_mature_rc_los_objects: 0,
                dead_mature_rc_los_volume: 0,
            }),
            r.counters == (BarrierCounters {
                barrier_slow_in_cc: 0,
                barrier_satb_inserts: 0,
                fast_count: 0,
                slow_count: 0,
            }),
            r.graph_report_mark@ == Map::total(|g: usize| 0u8),
            r.graph_reporter.is_blank(),
            r.finished_reports@.len() == 0,
            r.inc_packets@.len() == 0,
            r.lazy_dec_packets@.len() == 0,
            r.stw_dec_packets@.len() == 0,
            r.rc_sanity_objects@.len() == 0,
            r.lazy_decrements == lazy_decrements,
            r.takerate_measurement == takerate_measurement,
            !r.inside_harness,
    {
        broadcast use vstd::std_specs::hash::group_hash_axioms;

        let candidate_pools: Vec<BufferPool<ObjectReference>> = vec![
            BufferPool::new(CANDIDATE_BUFFER_CAPACITY),
            BufferPool::new(CANDIDATE_BUFFER_CAPACITY),
            BufferPool::new(CANDIDATE_BUFFER_CAPACITY),
        ];
        Lxr {
            tables: RcTables::new(),
            rc: RefCountHelper,
            rc_with_overflow: RefCountWithOverflow::new(),
            candidate_pools,
            curr_vec: 0,
            satb_map: HashMap::new(),
            in_cycle_collection: false,
            current_pause: None,
            possibly_dead_mature_blocks: Vec::new(),
            freed_large_objects: Vec::new(),
            overwritten_objects: Vec::new(),
            stat: DeadStats {
                dead_mature_objects: 0,
                dead_mature_volume: 0,
                dead_mature_rc_objects: 0,
                dead_mature_rc_volume: 0,
                dead_mature_los_objects: 0,
                dead_mature_los_volume: 0,
                dead_mature_rc_los_objects: 0,
                dead_mature_rc_los_volume: 0,
            },
            graph_reporter: GcCycleReport::new(),
            graph_report_mark: SideTable::new(0),
            finished_reports: Vec::new(),
            inc_packets: Vec::new(),
            lazy_dec_packets: Vec::new(),
            stw_dec_packets: Vec::new(),
            lazy_decrements,
            rc_sanity_objects: Vec::new(),
            counters: BarrierCounters {
                barrier_slow_in_cc: 0,
                barrier_satb_inserts: 0,
                fast_count: 0,
                slow_count: 0,
            },
            takerate_measurement,
            inside_harness: false,
        }
    }

    /// The tables are well-formed, there are three pools, and one of them takes
    /// new candidates.
    pub open spec fn wf(&self) -> bool {
        &&& self.tables.wf()
        &&& self.candidate_pools@.len() == 3
        &&& self.curr_vec < 3
    }

    /// Whether the tables are well-formed, there are three pools, and one of them
    /// takes new candidates.
    pub fn is_well_formed(&self) -> (r: bool)
        ensures
            r == self.wf(),
    {
        self.tables.is_well_formed() && self.candidate_pools.len() == 3 && self.curr_vec < 3
    }

    /// The pool that takes new candidates.
    pub open spec fn current_pool(&self) -> BufferPool<ObjectReference> {
        self.candidate_pools@[self.curr_vec as int]
    }

    /// The state that cycle collection works on.
    pub open spec fn cycle_state(&self) -> CycleState {
        CycleState {
            counts: self.tables.counts(),
            overflowed: self.rc_with_overflow.overflowed,
            strong: self.tables.strong_rc@,
            color: self.tables.obj_color@,
            cand: self.tables.candidates_status@,
            straddle: self.tables.rc_straddle_lines@,
            dead_cycles: self.tables.sanity_dead_cycle_count@,
            overwritten: self.overwritten_objects@,
            dead_blocks: block_starts(self.possibly_dead_mature_blocks@),
            freed_large: self.freed_large_objects@,
            freed: self.graph_reporter.cycle_collector_freed@,
            dead: self.stat,
        }
    }

    /// What stays the same while cycle collection works.
    pub open spec fn snapshot(&self, heap: Heap) -> Snapshot {
        Snapshot {
            heap,
            unlog: self.tables.field_unlog@,
            satb: self.satb_map@,
            tag: (self.curr_vec + 1) as u8,
        }
    }

    /// Whether `self` differs from `old` in nothing but the state that cycle
    /// collection works on.
    pub open spec fn same_but_cycle_state(&self, old: Lxr) -> bool {
        &&& *self == (Lxr {
            tables: self.tables,
            rc_with_overflow: self.rc_with_overflow,
            possibly_dead_mature_blocks: self.possibly_dead_mature_blocks,
            freed_large_objects: self.freed_large_objects,
            overwritten_objects: self.overwritten_objects,
            stat: self.stat,
            graph_reporter: self.graph_reporter,
            ..old
        })
        &&& self.tables == (RcTables {
            rc: self.tables.rc,
            overflow_rc: self.tables.overflow_rc,
            strong_rc: self.tables.strong_rc,
            obj_color: self.tables.obj_color,
            candidates_status: self.tables.candidates_status,
            rc_straddle_lines: self.tables.rc_straddle_lines,
            sanity_dead_cycle_count: self.tables.sanity_dead_cycle_count,
            ..old.tables
        })
        &&& self.graph_reporter == (GcCycleReport {
            cycle_collector_freed: self.graph_reporter.cycle_collector_freed,
            ..old.graph_reporter
        })
    }

    /// Whether `self` differs from `old` in nothing but the state that cycle
    /// collection works on and the pool that takes new candidates.
    pub open spec fn same_but_candidates(&self, old: Lxr) -> bool {
        &&& (Lxr {
            candidate_pools: old.candidate_pools,
            ..*self
        }).same_but_cycle_state(old)
        &&& self.candidate_pools@.len() == old.candidate_pools@.len()
        &&& forall|i: int|
            #![trigger self.candidate_pools@[i]]
            0 <= i < old.candidate_pools@.len() && i != old.curr_vec ==> self.candidate_pools@[i]
                == old.candidate_pools@[i]
    }

    /// Whether `self` differs from `old` in nothing but what a whole collection
    /// changes: besides the state that cycle collection works on, the pools,
    /// the reports, and whether a collection is under way.
    pub open spec fn same_but_collection(&self, old: Lxr) -> bool {
        (Lxr {
            candidate_pools: old.candidate_pools,
            graph_reporter: old.graph_reporter,
            graph_report_mark: old.graph_report_mark,
            finished_reports: old.finished_reports,
            in_cycle_collection: old.in_cycle_collection,
            ..*self
        }).same_but_cycle_state(old)
    }

    /// The colour of `o`.
    pub fn color(&self, o: ObjectReference) -> (r: u8)
        ensures
            r == self.cycle_state().color_of(o),
    {
        self.tables.obj_color.load(granule(o.addr))
    }

    /// The candidate tag of `o`.
    pub fn candidate_status(&self, o: ObjectReference) -> (r: u8)
        ensures
            r == self.cycle_state().cand[o.granule()],
    {
        self.tables.candidates_status.load(granule(o.addr))
    }

    /// The strong count of `o`.
    pub fn strong_count(&self, o: ObjectReference) -> (r: u8)
        ensures
            r == self.cycle_state().strong[o.granule()],
    {
        self.tables.strong_rc.load(granule(o.addr))
    }

    /// The count of `o` in the table.
    pub fn count(&self, o: ObjectReference) -> (r: u8)
        ensures
            r == self.cycle_state().counts.rc[o.granule()],
    {
        self.rc.count(&self.tables, o)
    }

    /// Colours `o`.
    pub fn set_color(&mut self, o: ObjectReference, color: u8)
        requires
            old(self).wf(),
            color <= 3,
        ensures
            final(self).wf(),
            final(self).cycle_state() == old(self).cycle_state().paint(o, color),
            final(self).same_but_cycle_state(*old(self)),
    {
        self.tables.obj_color.store(granule(o.addr), color);
        assert(self.cycle_state() =~= old(self).cycle_state().paint(o, color));
    }

    /// Sets the candidate tag of `o`.
    pub fn set_candidate_status(&mut self, o: ObjectReference, tag: u8)
        requires
            old(self).wf(),
            tag <= 3,
        ensures
            final(self).wf(),
            final(self).cycle_state() == old(self).cycle_state().tagged(o, tag),
            final(self).same_but_cycle_state(*old(self)),
    {
        self.tables.candidates_status.store(granule(o.addr), tag);
        assert(self.cycle_state() =~= old(self).cycle_state().tagged(o, tag));
    }

    /// Sets the strong count of `o`.
    pub fn set_strong_count(&mut self, o: ObjectReference, count: u8)
        requires
            old(self).wf(),
            count <= 15,
        ensures
            final(self).wf(),
            final(self).cycle_state() == old(self).cycle_state().with_strong(o, count),
            final(self).same_but_cycle_state(*old(self)),
    {
        self.tables.strong_rc.store(granule(o.addr), count);
        assert(self.cycle_state() =~= old(self).cycle_state().with_strong(o, count));
    }

    /// Adds a reference to `o` and returns how many there were.
    pub fn inc_exclusive(&mut self, o: ObjectReference) -> (r: u64)
        requires
            old(self).wf(),
        ensures
            final(self).wf(),
            r == old(self).cycle_state().counts.count(o.granule()),
            final(self).cycle_state() == old(self).cycle_state().inc(o),
            final(self).same_but_cycle_state(*old(self)),
    {
        let r: u64 = self.rc_with_overflow.inc_exclusive(&mut self.tables, o);
        assert(self.cycle_state() =~= old(self).cycle_state().inc(o));
        r
    }

    /// Takes a reference to `o` away and returns how many there were.
    pub fn dec_exclusive(&mut self, o: ObjectReference) -> (r: u64)
        requires
            old(self).wf(),
            old(self).cycle_state().counts.rc[o.granule()] != 0,
        ensures
            final(self).wf(),
            r == old(self).cycle_state().counts.count(o.granule()),
            final(self).cycle_state() == old(self).cycle_state().dec(o),
            final(self).same_but_cycle_state(*old(self)),
    {
        let r: u64 = self.rc_with_overflow.dec_exclusive(&mut self.tables, o);
        assert(self.cycle_state() =~= old(self).cycle_state().dec(o));
        r
    }

    /// Raises the strong count of `o` and returns what it was.
    pub fn strong_rc_inc_exclusive(&mut self, o: ObjectReference) -> (r: u8)
        requires
            old(self).wf(),
        ensures
            final(self).wf(),
            r == old(self).cycle_state().strong[o.granule()],
            final(self).cycle_state() == old(self).cycle_state().strong_inc(o),
            final(self).same_but_cycle_state(*old(self)),
    {
        let r: u8 = self.rc.strong_rc_inc_exclusive(&mut self.tables, o);
        assert(self.cycle_state() =~= old(self).cycle_state().strong_inc(o));
        r
    }

    /// Lowers the strong count of `o` and returns what it was.
    pub fn strong_rc_dec_exclusive(&mut self, o: ObjectReference) -> (r: u8)
        requires
            old(self).wf(),
        ensures
            final(self).wf(),
            r == old(self).cycle_state().strong[o.granule()],
            final(self).cycle_state() == old(self).cycle_state().strong_dec(o),
            final(self).same_but_cycle_state(*old(self)),
    {
        let r: u8 = self.rc.strong_rc_dec_exclusive(&mut self.tables, o);
        assert(self.cycle_state() =~= old(self).cycle_state().strong_dec(o));
        r
    }

    /// Makes `o` a candidate for a later collection.
    pub fn push_candidate(&mut self, cand_buffer: &mut LocalBuffer<ObjectReference>, o: ObjectReference)
        requires
            old(self).wf(),
            buffer::producer(old(self).current_pool(), *old(cand_buffer)).wf(),
        ensures
            final(self).wf(),
            buffer::producer(final(self).current_pool(), *final(cand_buffer)) == buffer::producer(
                old(self).current_pool(),
                *old(cand_buffer),
            ).push(o),
            buffer::producer(final(self).current_pool(), *final(cand_buffer)).wf(),
            final(self).cycle_state() == old(self).cycle_state(),
            final(self).same_but_candidates(*old(self)),
    {
        let i: usize = self.curr_vec as usize;
        cand_buffer.push(&mut self.candidate_pools[i], o);
    }
}

} // verus!
