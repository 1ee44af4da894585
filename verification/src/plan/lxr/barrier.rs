//! The field write barrier.
//!
//! Before a slot is written for the first time after a collection, the barrier
//! logs it: the object that the slot refers to loses a reference, and whatever
//! the slot will hold at the next collection gains one. While cycle collection
//! is under way the old value is recorded as well, so that the collection goes
//! on seeing the graph as it was.

use crate::plan::lxr::buffer;
use crate::plan::lxr::cycle_model::Snapshot;
use crate::plan::lxr::global::{BarrierCounters, Lxr};
use crate::util::address::ObjectReference;
use crate::util::rc::{RcTables, BLACK_IN_STACK, LOGGED_VALUE};
use crate::vm::heap::Heap;
use vstd::prelude::*;

verus! {

/// How many entries a queue holds before it is flushed.
pub const QUEUE_CAPACITY: usize = 4096;

/// The write barrier of one mutator.
pub struct LXRFieldBarrierSemantics {
    /// Slots whose new referents have to be counted.
    pub incs: Vec<usize>,
    /// Objects that lost a reference.
    pub decs: Vec<ObjectReference>,
    /// Slow paths during cycle collection that were not handed over yet.
    pub slow_in_cc: usize,
    /// Recorded slots that were not handed over yet.
    pub satb_inserts: usize,
}

/// What a barrier works on.
#[verifier::ext_equal]
pub struct BarrierState {
    /// Slots whose new referents have to be counted.
    pub incs: Seq<usize>,
    /// Objects that lost a reference.
    pub decs: Seq<ObjectReference>,
    /// Packets of such slots.
    pub inc_packets: Seq<Seq<usize>>,
    /// Packets of such objects, for after the pause.
    pub lazy_dec_packets: Seq<Seq<ObjectReference>>,
    /// Packets of such objects, for the pause itself.
    pub stw_dec_packets: Seq<Seq<ObjectReference>>,
    /// How many slots wait in packets.
    pub inc_buffer_size: usize,
    /// The unlog bits.
    pub unlog: Map<usize, u8>,
    /// What a slot held before it was logged.
    pub satb: Map<usize, Option<ObjectReference>>,
    /// Slow paths during cycle collection that were not handed over yet.
    pub slow_in_cc: usize,
    /// Recorded slots that were not handed over yet.
    pub satb_inserts: usize,
    /// What was handed over.
    pub counters: BarrierCounters,
}

/// What a barrier goes by and does not change.
pub struct BarrierContext {
    /// What the slots hold.
    pub fields: Map<usize, Option<ObjectReference>>,
    /// The colours.
    pub color: Map<usize, u8>,
    /// Whether cycle collection is under way.
    pub in_cycle_collection: bool,
    /// Whether decrements are left for after the pause.
    pub lazy_decrements: bool,
    /// Whether runs of the barrier are counted.
    pub measuring: bool,
}

impl BarrierState {
    /// After the slots that wait were handed over in a packet.
    pub open spec fn flush_incs(self) -> BarrierState {
        if self.incs.len() == 0 {
            self
        } else {
            BarrierState {
                incs: Seq::empty(),
                inc_packets: self.inc_packets.push(self.incs),
                inc_buffer_size: if self.inc_buffer_size + self.incs.len() > usize::MAX {
                    usize::MAX
                } else {
                    (self.inc_buffer_size + self.incs.len()) as usize
                },
                ..self
            }
        }
    }

    /// After the objects that wait were handed over in a packet.
    pub open spec fn flush_decs(self, lazy: bool) -> BarrierState {
        if self.decs.len() == 0 {
            self
        } else if lazy {
            BarrierState {
                decs: Seq::empty(),
                lazy_dec_packets: self.lazy_dec_packets.push(self.decs),
                ..self
            }
        } else {
            BarrierState {
                decs: Seq::empty(),
                stw_dec_packets: self.stw_dec_packets.push(self.decs),
                ..self
            }
        }
    }

    /// After `o` lost a reference.
    pub open spec fn push_dec(self, o: ObjectReference, lazy: bool) -> BarrierState {
        let s = BarrierState { decs: self.decs.push(o), ..self };
        if s.decs.len() >= 4096 {
            s.flush_decs(lazy)
        } else {
            s
        }
    }

    /// After the referent of `slot` has to be counted.
    pub open spec fn push_inc(self, slot: usize) -> BarrierState {
        let s = BarrierState { incs: self.incs.push(slot), ..self };
        if s.incs.len() >= 4096 {
            s.flush_incs()
        } else {
            s
        }
    }

    /// After the slow path for `slot` of `src`, which held `old`.
    pub open spec fn slow(
        self,
        c: BarrierContext,
        src: Option<ObjectReference>,
        slot: usize,
        old: Option<ObjectReference>,
    ) -> BarrierState {
        let s1 = match old {
            Some(o) => self.push_dec(o, c.lazy_decrements),
            None => self,
        };
        let s2 = s1.push_inc(slot);
        if !c.in_cycle_collection {
            s2
        } else {
            let s3 = BarrierState { slow_in_cc: s2.slow_in_cc.wrapping_add(1), ..s2 };
            if records(c, src) {
                BarrierState {
                    satb_inserts: s3.satb_inserts.wrapping_add(1),
                    satb: s3.satb.insert(slot, old),
                    ..s3
                }
            } else {
                s3
            }
        }
    }

    /// After a write to `slot` of `src` was announced. Only a slot that is not
    /// logged yet takes the slow path.
    pub open spec fn enqueue(
        self,
        c: BarrierContext,
        src: Option<ObjectReference>,
        slot: usize,
    ) -> BarrierState {
        let s1 = if c.measuring {
            BarrierState {
                counters: BarrierCounters {
                    fast_count: self.counters.fast_count.wrapping_add(1),
                    ..self.counters
                },
                ..self
            }
        } else {
            self
        };
        if self.unlog[slot] == 0 {
            s1
        } else {
            let s2 = BarrierState { unlog: s1.unlog.insert(slot, 0), ..s1 };
            let s3 = if c.measuring {
                BarrierState {
                    counters: BarrierCounters {
                        slow_count: s2.counters.slow_count.wrapping_add(1),
                        ..s2.counters
                    },
                    ..s2
                }
            } else {
                s2
            };
            s3.slow(c, src, slot, c.fields[slot])
        }
    }

    /// After writes to `slots` of `src` were announced in order.
    pub open spec fn enqueue_all(
        self,
        c: BarrierContext,
        src: Option<ObjectReference>,
        slots: Seq<usize>,
    ) -> BarrierState
        decreases slots.len(),
    {
        if slots.len() == 0 {
            self
        } else {
            self.enqueue_all(c, src, slots.drop_last()).enqueue(c, src, slots.last())
        }
    }

    /// After the counters were handed over.
    pub open spec fn flush_stats(self) -> BarrierState {
        BarrierState {
            slow_in_cc: 0,
            satb_inserts: 0,
            counters: BarrierCounters {
                barrier_slow_in_cc: self.counters.barrier_slow_in_cc.wrapping_add(self.slow_in_cc),
                barrier_satb_inserts: self.counters.barrier_satb_inserts.wrapping_add(
                    self.satb_inserts,
                ),
                ..self.counters
            },
            ..self
        }
    }
}

/// Whether the old value of a slot of `src` is recorded: the collection may
/// still look at `src`, or it is not known which object the slot belongs to.
pub open spec fn records(c: BarrierContext, src: Option<ObjectReference>) -> bool {
    match src {
        Some(o) => c.color[o.granule()] >= 1,
        None => true,
    }
}

impl Lxr {
    /// What barriers go by.
    pub open spec fn barrier_context(&self, heap: Heap) -> BarrierContext {
        BarrierContext {
            fields: heap.fields@,
            color: self.tables.obj_color@,
            in_cycle_collection: self.in_cycle_collection,
            lazy_decrements: self.lazy_decrements,
            measuring: self.takerate_measurement && self.inside_harness,
        }
    }

    /// Whether `self` differs from `old` in nothing but what barriers change.
    pub open spec fn same_but_barrier_state(&self, old: Lxr) -> bool {
        *self == (Lxr {
            tables: RcTables {
                field_unlog: self.tables.field_unlog,
                inc_buffer_size: self.tables.inc_buffer_size,
                ..old.tables
            },
            satb_map: self.satb_map,
            inc_packets: self.inc_packets,
            lazy_dec_packets: self.lazy_dec_packets,
            stw_dec_packets: self.stw_dec_packets,
            counters: self.counters,
            ..old
        })
    }
}

impl LXRFieldBarrierSemantics {
    /// What the barrier works on.
    pub open spec fn state(&self, lxr: Lxr) -> BarrierState {
        BarrierState {
            incs: self.incs@,
            decs: self.decs@,
            inc_packets: buffer::deep(lxr.inc_packets@),
            lazy_dec_packets: buffer::deep(lxr.lazy_dec_packets@),
            stw_dec_packets: buffer::deep(lxr.stw_dec_packets@),
            inc_buffer_size: lxr.tables.inc_buffer_size,
            unlog: lxr.tables.field_unlog@,
            satb: lxr.satb_map@,
            slow_in_cc: self.slow_in_cc,
            satb_inserts: self.satb_inserts,
            counters: lxr.counters,
        }
    }

    /// A barrier with empty queues.
    pub fn new() -> (r: LXRFieldBarrierSemantics)
        ensures
            r.incs@ == Seq::<usize>::empty(),
            r.decs@ == Seq::<ObjectReference>::empty(),
            r.slow_in_cc == 0,
            r.satb_inserts == 0,
    {
        LXRFieldBarrierSemantics {
            incs: Vec::new(),
            decs: Vec::new(),
            slow_in_cc: 0,
            satb_inserts: 0,
        }
    }

    /// The unlog bit of the slot.
    fn get_slot_logging_state(&self, lxr: &Lxr, slot: usize) -> (r: u8)
        ensures
            r == lxr.tables.field_unlog@[slot],
    {
        lxr.tables.field_unlog.load(slot)
    }

    /// Logs the slot. Returns whether it was not logged before.
    fn attempt_to_log_field(&self, lxr: &mut Lxr, slot: usize) -> (r: bool)
        requires
            old(lxr).wf(),
        ensures
            final(lxr).wf(),
            r == (old(lxr).tables.field_unlog@[slot] != LOGGED_VALUE),
            !r ==> *final(lxr) == *old(lxr),
            r ==> *final(lxr) == (Lxr {
                tables: RcTables {
                    field_unlog: final(lxr).tables.field_unlog,
                    ..old(lxr).tables
                },
                ..*old(lxr)
            }) && final(lxr).tables.field_unlog@ == old(lxr).tables.field_unlog@.insert(
                slot,
                LOGGED_VALUE,
            ),
    {
        if self.get_slot_logging_state(lxr, slot) == LOGGED_VALUE {
            return false;
        }
        lxr.tables.field_unlog.store(slot, LOGGED_VALUE);
        true
    }

    /// Logs the slot and returns what it holds. It is an error if it was logged
    /// before.
    fn log_slot_and_get_old_target(&self, heap: &Heap, lxr: &mut Lxr, slot: usize) -> (r: Result<
        Option<ObjectReference>,
        (),
    >)
        requires
            heap.wf(),
            heap.fields@.dom().contains(slot),
            old(lxr).wf(),
        ensures
            final(lxr).wf(),
            r == (if old(lxr).tables.field_unlog@[slot] == LOGGED_VALUE {
                Err::<Option<ObjectReference>, ()>(())
            } else {
                Ok::<Option<ObjectReference>, ()>(heap.fields@[slot])
            }),
            r is Err ==> *final(lxr) == *old(lxr),
            r is Ok ==> *final(lxr) == (Lxr {
                tables: RcTables {
                    field_unlog: final(lxr).tables.field_unlog,
                    ..old(lxr).tables
                },
                ..*old(lxr)
            }) && final(lxr).tables.field_unlog@ == old(lxr).tables.field_unlog@.insert(
                slot,
                LOGGED_VALUE,
            ),
    {
        if self.get_slot_logging_state(lxr, slot) == LOGGED_VALUE {
            return Err(());
        }
        let old = heap.load(slot);
        if self.attempt_to_log_field(lxr, slot) {
            Ok(old)
        } else {
            Err(())
        }
    }

    /// Logs the slot and returns what it holds. It is an error if it was logged
    /// before. The slot is logged without looking at it again.
    pub fn log_slot_and_get_old_target_sloppy(&self, heap: &Heap, lxr: &mut Lxr, slot: usize) -> (r: Result<
        Option<ObjectReference>,
        (),
    >)
        requires
            heap.wf(),
            heap.fields@.dom().contains(slot),
            old(lxr).wf(),
        ensures
            final(lxr).wf(),
            r == (if old(lxr).tables.field_unlog@[slot] == LOGGED_VALUE {
                Err::<Option<ObjectReference>, ()>(())
            } else {
                Ok::<Option<ObjectReference>, ()>(heap.fields@[slot])
            }),
            r is Err ==> *final(lxr) == *old(lxr),
            r is Ok ==> *final(lxr) == (Lxr {
                tables: RcTables {
                    field_unlog: final(lxr).tables.field_unlog,
                    ..old(lxr).tables
                },
                ..*old(lxr)
            }) && final(lxr).tables.field_unlog@ == old(lxr).tables.field_unlog@.insert(
                slot,
                LOGGED_VALUE,
            ),
    {
        if self.get_slot_logging_state(lxr, slot) != LOGGED_VALUE {
            let old = heap.load(slot);
            lxr.tables.field_unlog.store(slot, LOGGED_VALUE);
            Ok(old)
        } else {
            Err(())
        }
    }

    /// The slow path.
    fn slow(
        &mut self,
        lxr: &mut Lxr,
        heap: &Heap,
        src: Option<ObjectReference>,
        slot: usize,
        old_target: Option<ObjectReference>,
    )
        requires
            old(lxr).wf(),
        ensures
            final(lxr).wf(),
            final(lxr).same_but_barrier_state(*old(lxr)),
            final(self).state(*final(lxr)) == old(self).state(*old(lxr)).slow(
                old(lxr).barrier_context(*heap),
                src,
                slot,
                old_target,
            ),
    {
        broadcast use vstd::std_specs::hash::group_hash_axioms;

        let ghost c = lxr.barrier_context(*heap);
        if let Some(o) = old_target {
            let ghost s0 = self.state(*lxr);
            self.decs.push(o);
            assert(self.state(*lxr) =~= (BarrierState { decs: s0.decs.push(o), ..s0 }));
            if self.decs.len() >= QUEUE_CAPACITY {
                self.flush_decs(lxr);
            }
        }
        let ghost s1 = self.state(*lxr);
        self.incs.push(slot);
        assert(self.state(*lxr) =~= (BarrierState { incs: s1.incs.push(slot), ..s1 }));
        if self.incs.len() >= QUEUE_CAPACITY {
            self.flush_incs(lxr);
        }
        let ghost s2 = self.state(*lxr);
        if lxr.in_cycle_collection {
            self.slow_in_cc = self.slow_in_cc.wrapping_add(1);
            let record = match src {
                Some(o) => lxr.color(o) >= BLACK_IN_STACK,
                None => true,
            };
            if record {
                self.satb_inserts = self.satb_inserts.wrapping_add(1);
                lxr.satb_map.insert(slot, old_target);
            }
        }
        assert(self.state(*lxr) =~= old(self).state(*old(lxr)).slow(c, src, slot, old_target));
    }

    /// Announces a write to `slot` of `src`. Returns whether the slot was not
    /// logged before.
    pub fn enqueue_node(
        &mut self,
        lxr: &mut Lxr,
        heap: &Heap,
        src: Option<ObjectReference>,
        slot: usize,
    ) -> (r: bool)
        requires
            heap.wf(),
            heap.fields@.dom().contains(slot),
            old(lxr).wf(),
        ensures
            final(lxr).wf(),
            final(lxr).same_but_barrier_state(*old(lxr)),
            r == (old(lxr).tables.field_unlog@[slot] != LOGGED_VALUE),
            final(self).state(*final(lxr)) == old(self).state(*old(lxr)).enqueue(
                old(lxr).barrier_context(*heap),
                src,
                slot,
            ),
    {
        let ghost c = lxr.barrier_context(*heap);
        if lxr.takerate_measurement && lxr.inside_harness {
            lxr.counters.fast_count = lxr.counters.fast_count.wrapping_add(1);
        }
        let ghost s1 = self.state(*lxr);
        match self.log_slot_and_get_old_target(heap, lxr, slot) {
            Ok(old_target) => {
                assert(self.state(*lxr) =~= (BarrierState {
                    unlog: s1.unlog.insert(slot, 0),
                    ..s1
                }));
                if lxr.takerate_measurement && lxr.inside_harness {
                    lxr.counters.slow_count = lxr.counters.slow_count.wrapping_add(1);
                }
                self.slow(lxr, heap, src, slot, old_target);
                assert(self.state(*lxr) =~= old(self).state(*old(lxr)).enqueue(c, src, slot));
                true
            },
            Err(_) => {
                assert(self.state(*lxr) =~= old(self).state(*old(lxr)).enqueue(c, src, slot));
                false
            },
        }
    }

    /// Hands over the slots that wait.
    fn flush_incs(&mut self, lxr: &mut Lxr)
        requires
            old(lxr).wf(),
        ensures
            final(lxr).wf(),
            final(lxr).same_but_barrier_state(*old(lxr)),
            final(self).state(*final(lxr)) == old(self).state(*old(lxr)).flush_incs(),
    {
        if !self.incs.is_empty() {
            let mut incs: Vec<usize> = Vec::new();
            std::mem::swap(&mut incs, &mut self.incs);
            lxr.rc.increase_inc_buffer_size(&mut lxr.tables, incs.len());
            lxr.inc_packets.push(incs);
        }
        assert(self.state(*lxr) =~= old(self).state(*old(lxr)).flush_incs()) by {
            assert(old(self).incs@.len() > 0 ==> buffer::deep(lxr.inc_packets@) =~= buffer::deep(
                old(lxr).inc_packets@,
            ).push(old(self).incs@));
        }
    }

    /// Hands over the objects that wait.
    fn flush_decs(&mut self, lxr: &mut Lxr)
        requires
            old(lxr).wf(),
        ensures
            final(lxr).wf(),
            final(lxr).same_but_barrier_state(*old(lxr)),
            final(self).state(*final(lxr)) == old(self).state(*old(lxr)).flush_decs(
                old(lxr).lazy_decrements,
            ),
    {
        if !self.decs.is_empty() {
            let mut decs: Vec<ObjectReference> = Vec::new();
            std::mem::swap(&mut decs, &mut self.decs);
            if lxr.lazy_decrements {
                lxr.lazy_dec_packets.push(decs);
                assert(buffer::deep(lxr.lazy_dec_packets@) =~= buffer::deep(
                    old(lxr).lazy_dec_packets@,
                ).push(old(self).decs@));
            } else {
                lxr.stw_dec_packets.push(decs);
                assert(buffer::deep(lxr.stw_dec_packets@) =~= buffer::deep(
                    old(lxr).stw_dec_packets@,
                ).push(old(self).decs@));
            }
        }
        assert(self.state(*lxr) =~= old(self).state(*old(lxr)).flush_decs(
            old(lxr).lazy_decrements,
        ));
    }

    /// Hands over the counters.
    fn flush_barrier_stats(&mut self, lxr: &mut Lxr)
        requires
            old(lxr).wf(),
        ensures
            final(lxr).wf(),
            final(lxr).same_but_barrier_state(*old(lxr)),
            final(self).state(*final(lxr)) == old(self).state(*old(lxr)).flush_stats(),
    {
        if self.slow_in_cc != 0 || self.satb_inserts != 0 {
            lxr.counters.barrier_slow_in_cc = lxr.counters.barrier_slow_in_cc.wrapping_add(
                self.slow_in_cc,
            );
            lxr.counters.barrier_satb_inserts = lxr.counters.barrier_satb_inserts.wrapping_add(
                self.satb_inserts,
            );
            self.slow_in_cc = 0;
            self.satb_inserts = 0;
        }
        assert(self.state(*lxr) =~= old(self).state(*old(lxr)).flush_stats());
    }

    /// Hands over everything that waits.
    pub fn flush(&mut self, lxr: &mut Lxr)
        requires
            old(lxr).wf(),
        ensures
            final(lxr).wf(),
            final(lxr).same_but_barrier_state(*old(lxr)),
            final(self).state(*final(lxr)) == old(self).state(
                *old(lxr),
            ).flush_stats().flush_incs().flush_decs(old(lxr).lazy_decrements),
    {
        self.flush_barrier_stats(lxr);
        self.flush_incs(lxr);
        self.flush_decs(lxr);
    }

    /// Announces a write to `slot` of `src`.
    pub fn object_reference_write_slow(
        &mut self,
        lxr: &mut Lxr,
        heap: &Heap,
        src: Option<ObjectReference>,
        slot: usize,
    )
        requires
            heap.wf(),
            heap.fields@.dom().contains(slot),
            old(lxr).wf(),
        ensures
            final(lxr).wf(),
            final(lxr).same_but_barrier_state(*old(lxr)),
            final(self).state(*final(lxr)) == old(self).state(*old(lxr)).enqueue(
                old(lxr).barrier_context(*heap),
                src,
                slot,
            ),
    {
        self.enqueue_node(lxr, heap, src, slot);
    }

    /// Announces writes to all slots of a region of memory.
    pub fn memory_region_copy_slow(&mut self, lxr: &mut Lxr, heap: &Heap, dst: &Vec<usize>)
        requires
            heap.wf(),
            forall|j: int| 0 <= j < dst@.len() ==> heap.fields@.dom().contains(#[trigger] dst@[j]),
            old(lxr).wf(),
        ensures
            final(lxr).wf(),
            final(lxr).same_but_barrier_state(*old(lxr)),
            final(self).state(*final(lxr)) == old(self).state(*old(lxr)).enqueue_all(
                old(lxr).barrier_context(*heap),
                None,
                dst@,
            ),
    {
        self.enqueue_slots(lxr, heap, None, dst);
    }

    /// Announces writes to all slots of the object `obj`.
    pub fn object_probable_write_slow(&mut self, lxr: &mut Lxr, heap: &Heap, obj: ObjectReference)
        requires
            heap.wf(),
            heap.contains(obj),
            old(lxr).wf(),
        ensures
            final(lxr).wf(),
            final(lxr).same_but_barrier_state(*old(lxr)),
            final(self).state(*final(lxr)) == old(self).state(*old(lxr)).enqueue_all(
                old(lxr).barrier_context(*heap),
                Some(obj),
                heap.slots(obj),
            ),
    {
        let info = heap.get(obj);
        assert(forall|j: int|
            0 <= j < info.slots@.len() ==> heap.fields@.dom().contains(
                #[trigger] heap.objects@[heap.place(obj)].slots@[j],
            ));
        self.enqueue_slots(lxr, heap, Some(obj), &info.slots);
    }

    /// Announces writes to `slots` of `src`.
    fn enqueue_slots(
        &mut self,
        lxr: &mut Lxr,
        heap: &Heap,
        src: Option<ObjectReference>,
        slots: &Vec<usize>,
    )
        requires
            heap.wf(),
            forall|j: int|
                0 <= j < slots@.len() ==> heap.fields@.dom().contains(#[trigger] slots@[j]),
            old(lxr).wf(),
        ensures
            final(lxr).wf(),
            final(lxr).same_but_barrier_state(*old(lxr)),
            final(self).state(*final(lxr)) == old(self).state(*old(lxr)).enqueue_all(
                old(lxr).barrier_context(*heap),
                src,
                slots@,
            ),
    {
        let ghost c = lxr.barrier_context(*heap);
        let ghost s0 = self.state(*lxr);
        let mut i: usize = 0;
        assert(slots@.take(0) =~= Seq::<usize>::empty());
        while i < slots.len()
            invariant
                heap.wf(),
                forall|j: int|
                    0 <= j < slots@.len() ==> heap.fields@.dom().contains(#[trigger] slots@[j]),
                lxr.wf(),
                lxr.same_but_barrier_state(*old(lxr)),
                c == old(lxr).barrier_context(*heap),
                i <= slots@.len(),
                self.state(*lxr) == s0.enqueue_all(c, src, slots@.take(i as int)),
            decreases slots@.len() - i,
        {
            assert(slots@.take(i + 1).drop_last() =~= slots@.take(i as int));
            self.enqueue_node(lxr, heap, src, slots[i]);
            i = i + 1;
        }
        assert(slots@.take(slots@.len() as int) =~= slots@);
    }
}

/// A write to a slot that is logged already changes nothing but the count of
/// barriers: the value that was recorded first stays.
pub proof fn logged_slot_is_left_alone(
    s: BarrierState,
    c: BarrierContext,
    src: Option<ObjectReference>,
    slot: usize,
)
    requires
        s.unlog[slot] == 0,
    ensures
        s.enqueue(c, src, slot) == (BarrierState {
            counters: s.enqueue(c, src, slot).counters,
            ..s
        }),
{
}

/// A second write to a slot is announced to no effect.
pub proof fn second_write_is_not_logged(
    s: BarrierState,
    c: BarrierContext,
    src: Option<ObjectReference>,
    slot: usize,
)
    requires
        !c.measuring,
    ensures
        s.enqueue(c, src, slot).enqueue(c, src, slot) == s.enqueue(c, src, slot),
{
}

/// What waits and what was handed over, in order.
pub open spec fn all_incs(s: BarrierState) -> Seq<usize> {
    s.inc_packets.flatten() + s.incs
}

/// The objects that lost a reference, those that wait and those that were handed
/// over, in order, where decrements are left for after the pause.
pub open spec fn all_lazy_decs(s: BarrierState) -> Seq<ObjectReference> {
    s.lazy_dec_packets.flatten() + s.decs
}

/// The objects that lost a reference, those that wait and those that were handed
/// over, in order, where decrements are done in the pause.
pub open spec fn all_stw_decs(s: BarrierState) -> Seq<ObjectReference> {
    s.stw_dec_packets.flatten() + s.decs
}

/// Handing over loses nothing.
pub proof fn flush_loses_nothing(s: BarrierState)
    ensures
        all_incs(s.flush_incs()) == all_incs(s),
        all_lazy_decs(s.flush_decs(true)) == all_lazy_decs(s),
        all_stw_decs(s.flush_decs(false)) == all_stw_decs(s),
{
    s.inc_packets.lemma_flatten_push(s.incs);
    s.lazy_dec_packets.lemma_flatten_push(s.decs);
    s.stw_dec_packets.lemma_flatten_push(s.decs);
    assert(all_incs(s.flush_incs()) =~= all_incs(s));
    assert(all_lazy_decs(s.flush_decs(true)) =~= all_lazy_decs(s));
    assert(all_stw_decs(s.flush_decs(false)) =~= all_stw_decs(s));
}

/// A write to a slot that is not logged adds exactly the slot to those whose
/// referents have to be counted, and what it holds to the objects that lost a
/// reference, whether queues are handed over on the way or not.
pub proof fn first_write_counts_both_referents(
    s: BarrierState,
    c: BarrierContext,
    src: Option<ObjectReference>,
    slot: usize,
)
    requires
        s.unlog[slot] != 0,
    ensures
        s.enqueue(c, src, slot).unlog == s.unlog.insert(slot, 0),
        all_incs(s.enqueue(c, src, slot)) == all_incs(s).push(slot),
        c.lazy_decrements ==> all_lazy_decs(s.enqueue(c, src, slot)) == (match c.fields[slot] {
            Some(o) => all_lazy_decs(s).push(o),
            None => all_lazy_decs(s),
        }),
        !c.lazy_decrements ==> all_stw_decs(s.enqueue(c, src, slot)) == (match c.fields[slot] {
            Some(o) => all_stw_decs(s).push(o),
            None => all_stw_decs(s),
        }),
{
    let f = s.enqueue(c, src, slot);
    let old = c.fields[slot];
    if let Some(o) = old {
        let s1 = BarrierState { decs: s.decs.push(o), ..s };
        flush_loses_nothing(s1);
        assert(all_lazy_decs(s1) =~= all_lazy_decs(s).push(o));
        assert(all_stw_decs(s1) =~= all_stw_decs(s).push(o));
    }
    let s2 = BarrierState { incs: s.incs.push(slot), ..s };
    flush_loses_nothing(s2);
    assert(all_incs(s2) =~= all_incs(s).push(slot));
    assert(all_incs(f) =~= all_incs(s).push(slot));
    assert(c.lazy_decrements ==> all_lazy_decs(f) =~= (match old {
        Some(o) => all_lazy_decs(s).push(o),
        None => all_lazy_decs(s),
    }));
    assert(!c.lazy_decrements ==> all_stw_decs(f) =~= (match old {
        Some(o) => all_stw_decs(s).push(o),
        None => all_stw_decs(s),
    }));
}

/// While cycle collection is under way, the barrier keeps the records complete:
/// where every logged slot of an object that is not black was recorded, it is
/// so after a write to a slot, announced with the object that the slot belongs
/// to.
pub proof fn barrier_keeps_snapshot(
    heap: Heap,
    tag: u8,
    s: BarrierState,
    c: BarrierContext,
    src: Option<ObjectReference>,
    slot: usize,
)
    requires
        heap.wf(),
        heap.fields@.dom().contains(slot),
        c.fields == heap.fields@,
        c.in_cycle_collection,
        (Snapshot { heap, unlog: s.unlog, satb: s.satb, tag }).covers(c.color),
        src matches Some(o) ==> forall|k: int, j: int|
            0 <= k < heap.objects@.len() && 0 <= j < heap.objects@[k].slots@.len()
                && #[trigger] heap.objects@[k].slots@[j] == slot ==> heap.objects@[k].object == o,
    ensures
        ({
            let f = s.enqueue(c, src, slot);
            (Snapshot { heap, unlog: f.unlog, satb: f.satb, tag }).covers(c.color)
        }),
{
    let f = s.enqueue(c, src, slot);
    let before = Snapshot { heap, unlog: s.unlog, satb: s.satb, tag };
    let after = Snapshot { heap, unlog: f.unlog, satb: f.satb, tag };
    if s.unlog[slot] != 0 {
        assert(f.unlog == s.unlog.insert(slot, 0));
        assert forall|k: int, j: int|
            #![trigger heap.objects@[k].slots@[j]]
            0 <= k < heap.objects@.len() && 0 <= j < heap.objects@[k].slots@.len()
                && c.color[heap.objects@[k].object.granule()] >= 2
                && f.unlog[heap.objects@[k].slots@[j]] != 1 implies f.satb.dom().contains(
            heap.objects@[k].slots@[j],
        ) by {
            if heap.objects@[k].slots@[j] == slot {
                if let Some(o) = src {
                    assert(heap.objects@[k].object == o);
                }
                assert(records(c, src));
            } else {
                assert(before.heap.objects@[k].slots@[j] == heap.objects@[k].slots@[j]);
            }
        }
        assert forall|a: usize, x: ObjectReference|
            #![trigger heap.contains(x), f.satb[a]]
            f.satb.dom().contains(a) && f.satb[a] == Some(x) implies heap.contains(x) by {
            if a == slot && records(c, src) {
                assert(heap.fields@[slot] == Some(x));
                assert(heap.contains(x));
            } else {
                assert(before.satb.dom().contains(a) && before.satb[a] == Some(x));
                assert(before.heap.contains(x));
            }
        }
    }
    assert(after.covers(c.color));
}

} // verus!
