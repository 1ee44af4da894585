//! A trace of the heap after a collection that checks what the collection left.

use crate::plan::immix::Pause;
use crate::plan::lxr::global::Lxr;
use crate::util::address;
use crate::util::address::{granule, Block, Line, ObjectReference, BYTES_IN_BLOCK, MIN_OBJECT_SIZE};
use crate::util::rc::{LOGGED_VALUE, MAX_REF_COUNT};
use crate::util::side_metadata::SideTable;
use crate::vm::heap::Heap;
use std::collections::HashSet;
use vstd::prelude::*;

verus! {

/// The last epoch before the epochs begin again at 1. A mark has four bits, and
/// 0 is the mark of an object that no trace has seen.
pub const MAX_MARK_STATE: u8 = 15;

/// What the first word of an object holds once it was reclaimed.
pub const DEAD_WORD: usize = 0xdead;

/// The kind of a root, by the number that the virtual machine gives it.
#[derive(Clone, Copy, Debug, PartialEq, Eq, Structural)]
pub struct RootKind {
    /// The number.
    pub code: u8,
}

/// What a trace was given and has found.
pub struct SanityChecker {
    /// The addresses of the objects that were visited.
    pub refs: HashSet<usize>,
    /// The root slots that the collection used.
    pub root_slots: Vec<(Vec<usize>, RootKind)>,
    /// The root objects that the collection used.
    pub root_nodes: Vec<Vec<ObjectReference>>,
}

impl SanityChecker {
    /// A checker that was given nothing.
    pub fn new() -> (r: SanityChecker)
        ensures
            r.refs@ == Set::<usize>::empty(),
            r.root_slots@ == Seq::<(Vec<usize>, RootKind)>::empty(),
            r.root_nodes@ == Seq::<Vec<ObjectReference>>::empty(),
    {
        SanityChecker { refs: HashSet::new(), root_slots: Vec::new(), root_nodes: Vec::new() }
    }

    /// Keeps root slots for the trace.
    pub fn add_root_slots(&mut self, roots: Vec<usize>, kind: RootKind)
        ensures
            *final(self) == (SanityChecker { root_slots: final(self).root_slots, ..*old(self) }),
            final(self).root_slots@ == old(self).root_slots@.push((roots, kind)),
    {
        self.root_slots.push((roots, kind))
    }

    /// Keeps root objects for the trace.
    pub fn add_root_nodes(&mut self, roots: Vec<ObjectReference>)
        ensures
            *final(self) == (SanityChecker { root_nodes: final(self).root_nodes, ..*old(self) }),
            final(self).root_nodes@ == old(self).root_nodes@.push(roots),
    {
        self.root_nodes.push(roots)
    }

    /// Forgets the roots.
    pub fn clear_roots_cache(&mut self)
        ensures
            final(self).refs == old(self).refs,
            final(self).root_slots@ == Seq::<(Vec<usize>, RootKind)>::empty(),
            final(self).root_nodes@ == Seq::<Vec<ObjectReference>>::empty(),
    {
        self.root_slots.clear();
        self.root_nodes.clear();
    }
}

/// The state of the trace.
pub struct SanityState {
    /// The epoch.
    pub mark_state: u8,
    /// The epoch in which each granule was last marked.
    pub mark_bits: SideTable<u8>,
    /// Bytes of live objects in blocks.
    pub live_size_ix: usize,
    /// Bytes of live large objects.
    pub live_size_los: usize,
}

impl SanityState {
    /// The state before the first trace.
    pub fn new() -> (r: SanityState)
        ensures
            r.mark_state == 0,
            r.mark_bits@ == Map::total(|g: usize| 0u8),
            r.live_size_ix == 0,
            r.live_size_los == 0,
    {
        SanityState {
            mark_state: 0,
            mark_bits: SideTable::new(0),
            live_size_ix: 0,
            live_size_los: 0,
        }
    }
}

/// The stage at which a packet runs.
#[derive(Clone, Copy, Debug, PartialEq, Eq, Structural)]
pub enum WorkBucketStage {
    /// Before the trace.
    Prepare,
    /// The trace.
    Closure,
    /// After the trace.
    Release,
}

/// A packet of work.
pub enum SanityPacket {
    /// Traces from root slots.
    ProcessEdges(SanityGCProcessEdges),
    /// Prepares the trace.
    Prepare(SanityPrepare),
    /// Checks what the trace left.
    Release(SanityRelease),
}

/// Schedules a sanity trace.
#[derive(Clone, Copy, Debug)]
pub struct ScheduleSanityGC;

/// The packet that traces from the root slots.
pub open spec fn packet_for_roots(roots: (Vec<usize>, RootKind), p: SanityPacket) -> bool {
    p matches SanityPacket::ProcessEdges(w) && w.slots@ == roots.0@ && w.roots && w.root_kind
        == Some(roots.1) && w.edge is None && w.nodes@ == Seq::<ObjectReference>::empty()
}

impl ScheduleSanityGC {
    /// A scheduler.
    pub fn new() -> (r: ScheduleSanityGC) {
        ScheduleSanityGC
    }

    /// The packets of the trace: one for each list of root slots, one that
    /// prepares and one that checks. Root objects are not supported.
    pub fn do_work(&self, checker: &SanityChecker) -> (r: Vec<(WorkBucketStage, SanityPacket)>)
        requires
            checker.root_nodes@.len() == 0,
        ensures
            r@.len() == checker.root_slots@.len() + 2,
            forall|i: int|
                #![trigger r@[i]]
                0 <= i < checker.root_slots@.len() ==> r@[i].0 == WorkBucketStage::Closure
                    && packet_for_roots(checker.root_slots@[i], r@[i].1),
            r@[r@.len() - 2].0 == WorkBucketStage::Prepare,
            r@[r@.len() - 2].1 is Prepare,
            r@[r@.len() - 1].0 == WorkBucketStage::Release,
            r@[r@.len() - 1].1 is Release,
    {
        let mut packets: Vec<(WorkBucketStage, SanityPacket)> = Vec::new();
        let mut i: usize = 0;
        while i < checker.root_slots.len()
            invariant
                i <= checker.root_slots@.len(),
                packets@.len() == i,
                forall|k: int|
                    #![trigger packets@[k]]
                    0 <= k < i ==> packets@[k].0 == WorkBucketStage::Closure && packet_for_roots(
                        checker.root_slots@[k],
                        packets@[k].1,
                    ),
            decreases checker.root_slots@.len() - i,
        {
            let slots = checker.root_slots[i].0.clone();
            assert(slots@ =~= checker.root_slots@[i as int].0@);
            let mut w = SanityGCProcessEdges::new(slots, true);
            w.root_kind = Some(checker.root_slots[i].1);
            packets.push((WorkBucketStage::Closure, SanityPacket::ProcessEdges(w)));
            i = i + 1;
        }
        packets.push((WorkBucketStage::Prepare, SanityPacket::Prepare(SanityPrepare::new())));
        packets.push((WorkBucketStage::Release, SanityPacket::Release(SanityRelease::new())));
        packets
    }
}

/// Prepares a sanity trace.
#[derive(Clone, Copy, Debug)]
pub struct SanityPrepare;

/// The epoch after `state`.
pub open spec fn next_mark_state(state: u8) -> u8 {
    if state == 0 || state >= 15 {
        1
    } else {
        (state + 1) as u8
    }
}

/// An epoch follows every epoch, none is the mark of an object that no trace has
/// seen, and all fit in a mark.
pub proof fn epochs_fit_in_marks(state: u8)
    ensures
        1 <= next_mark_state(state) <= 15,
        next_mark_state(state) != state,
{
}

/// The epoch that follows `state` after `n` traces.
pub open spec fn mark_state_after(state: u8, n: nat) -> u8
    decreases n,
{
    if n == 0 {
        state
    } else {
        next_mark_state(mark_state_after(state, (n - 1) as nat))
    }
}

/// The epochs go round: after `n` traces it is `n` places on, of fifteen.
proof fn mark_state_is_cyclic(state: u8, n: nat)
    requires
        1 <= state <= 15,
    ensures
        mark_state_after(state, n) == (state - 1 + n) % 15 + 1,
    decreases n,
{
    if n > 0 {
        mark_state_is_cyclic(state, (n - 1) as nat);
    }
}

/// An epoch comes again after fifteen traces and not before: a mark that is
/// between one and fourteen traces old is told from a current one.
pub proof fn stale_marks_are_told_apart(state: u8, n: nat)
    requires
        1 <= state <= 15,
        1 <= n <= 14,
    ensures
        mark_state_after(state, n) != state,
        mark_state_after(state, 15) == state,
{
    mark_state_is_cyclic(state, n);
    mark_state_is_cyclic(state, 15);
}

impl SanityPrepare {
    /// A packet that prepares the trace.
    pub fn new() -> (r: SanityPrepare) {
        SanityPrepare
    }

    /// Begins the next epoch.
    fn update_mark_state(state: &mut SanityState)
        ensures
            *final(state) == (SanityState {
                mark_state: next_mark_state(old(state).mark_state),
                ..*old(state)
            }),
    {
        if state.mark_state == 0 || state.mark_state >= MAX_MARK_STATE {
            state.mark_state = 1;
        } else {
            state.mark_state = state.mark_state + 1;
        }
    }

    /// Prepares the trace: the next epoch begins, and nothing was visited.
    pub fn do_work(&self, state: &mut SanityState, checker: &mut SanityChecker)
        ensures
            *final(state) == (SanityState {
                mark_state: next_mark_state(old(state).mark_state),
                live_size_ix: 0,
                live_size_los: 0,
                ..*old(state)
            }),
            final(checker).refs@ == Set::<usize>::empty(),
            final(checker).root_slots == old(checker).root_slots,
            final(checker).root_nodes == old(checker).root_nodes,
    {
        Self::update_mark_state(state);
        checker.refs.clear();
        state.live_size_ix = 0;
        state.live_size_los = 0;
    }
}

/// What is wrong with the heap.
#[derive(Clone, Copy, Debug, PartialEq, Eq, Structural)]
pub enum SanityError {
    /// The slot that leads to the object is logged.
    Logged(ObjectReference),
    /// The object is no object.
    Insane(ObjectReference),
    /// The object is in memory that is not mapped.
    Unmapped(ObjectReference),
    /// Nothing refers to the object strongly, and it is no candidate.
    NoStrongReference(ObjectReference),
    /// The object has more strong references than references.
    StrongExceedsCount(ObjectReference),
    /// The object was reclaimed.
    Killed(ObjectReference),
    /// The object has no count.
    ZeroCount(ObjectReference),
    /// The object was moved.
    Forwarded(ObjectReference),
    /// The block of the object was released.
    BlockReleased(ObjectReference),
    /// No collection is under way.
    NoPause(ObjectReference),
    /// The object was not marked by the collection.
    NotMarked(ObjectReference),
    /// More references were found to the object than it has.
    CountTooLow(ObjectReference),
    /// The object has no valid-object bit.
    NoVoBit(ObjectReference),
    /// The object reaches beyond its block.
    OverrunsBlock(ObjectReference),
}

/// What only the virtual machine and the memory manager know of an object that
/// is traced, and of the slot that leads to it.
#[derive(Clone, Copy, Debug, PartialEq, Eq, Structural)]
pub struct ObjectFacts {
    /// Whether the slot is in memory that is mapped.
    pub edge_mapped: bool,
    /// Whether the object looks like one.
    pub is_sane: bool,
    /// Whether the object is in memory that is mapped.
    pub is_mapped: bool,
    /// The first word of the object.
    pub first_word: usize,
    /// Whether the object was or is being moved.
    pub is_forwarded: bool,
    /// Whether the object lies in a block.
    pub in_immix_space: bool,
    /// Whether that block is unallocated.
    pub block_unallocated: bool,
    /// Whether the collection marked the object.
    pub is_marked: bool,
    /// Whether the valid-object bit of the object is set, where there are such
    /// bits.
    pub vo_bit: Option<bool>,
}

/// Traces from slots.
pub struct SanityGCProcessEdges {
    /// The slots.
    pub slots: Vec<usize>,
    /// Whether they are roots.
    pub roots: bool,
    /// The kind of root.
    pub root_kind: Option<RootKind>,
    /// The slot that is being looked at.
    pub edge: Option<usize>,
    /// The objects that are to be scanned next.
    pub nodes: Vec<ObjectReference>,
}

/// The first thing that is wrong with an object that was not marked before.
pub open spec fn object_error(
    lxr: Lxr,
    facts: ObjectFacts,
    o: ObjectReference,
) -> Option<SanityError> {
    let s = lxr.cycle_state();
    let g = o.granule();
    let pause = lxr.current_pause;
    if !facts.is_sane {
        Some(SanityError::Insane(o))
    } else if !facts.is_mapped {
        Some(SanityError::Unmapped(o))
    } else if s.strong[g] == 0 && s.cand[g] == 0 {
        Some(SanityError::NoStrongReference(o))
    } else if s.strong[g] > s.counts.rc[g] {
        Some(SanityError::StrongExceedsCount(o))
    } else if facts.first_word == DEAD_WORD {
        Some(SanityError::Killed(o))
    } else if s.counts.rc[g] == 0 {
        Some(SanityError::ZeroCount(o))
    } else if facts.is_forwarded {
        Some(SanityError::Forwarded(o))
    } else if facts.in_immix_space && facts.block_unallocated {
        Some(SanityError::BlockReleased(o))
    } else if pause is None {
        Some(SanityError::NoPause(o))
    } else if (pause == Some(Pause::FinalMark) || pause == Some(Pause::Full))
        && !facts.is_marked {
        Some(SanityError::NotMarked(o))
    } else {
        None
    }
}

/// The objects whose references are counted, after one more reference to `o`
/// was found. A number stops at its largest value.
pub open spec fn count_reference(
    objects: Seq<(ObjectReference, u8)>,
    o: ObjectReference,
) -> Seq<(ObjectReference, u8)> {
    Seq::new(
        objects.len(),
        |i: int|
            if objects[i].0 == o && objects[i].1 < 255 {
                (o, (objects[i].1 + 1) as u8)
            } else {
                objects[i]
            },
    )
}

impl SanityGCProcessEdges {
    /// A trace from the slots.
    pub fn new(slots: Vec<usize>, roots: bool) -> (r: SanityGCProcessEdges)
        ensures
            r.slots == slots,
            r.roots == roots,
            r.root_kind is None,
            r.edge is None,
            r.nodes@ == Seq::<ObjectReference>::empty(),
    {
        SanityGCProcessEdges { slots, roots, root_kind: None, edge: None, nodes: Vec::new() }
    }

    /// Marks `o` in the current epoch. Returns whether it was not marked in it
    /// before.
    fn attempt_mark(&self, state: &mut SanityState, o: ObjectReference) -> (r: bool)
        ensures
            r == (old(state).mark_bits@[o.granule()] != old(state).mark_state),
            *final(state) == (SanityState { mark_bits: final(state).mark_bits, ..*old(state) }),
            r ==> final(state).mark_bits@ == old(state).mark_bits@.insert(
                o.granule(),
                old(state).mark_state,
            ),
            !r ==> *final(state) == *old(state),
    {
        let g: usize = granule(o.addr);
        let old_value: u8 = state.mark_bits.load(g);
        if old_value == state.mark_state {
            return false;
        }
        state.mark_bits.store(g, state.mark_state);
        true
    }

    /// Traces from the slot.
    pub fn process_slot(
        &mut self,
        slot: usize,
        facts: &ObjectFacts,
        heap: &Heap,
        lxr: &mut Lxr,
        state: &mut SanityState,
    ) -> (r: Result<(), SanityError>)
        requires
            heap.wf(),
            heap.fields@.dom().contains(slot),
            old(lxr).wf(),
        ensures
            final(lxr).wf(),
            match heap.fields@[slot] {
                None => {
                    &&& r is Ok
                    &&& *final(self) == (SanityGCProcessEdges { edge: Some(slot), ..*old(self) })
                    &&& *final(lxr) == *old(lxr)
                    &&& *final(state) == *old(state)
                },
                Some(o) => {
                    &&& traced(
                        SanityGCProcessEdges { edge: Some(slot), ..*old(self) },
                        *final(self),
                        *old(lxr),
                        *final(lxr),
                        *old(state),
                        *final(state),
                        slot,
                        *facts,
                        o,
                        match r {
                            Ok(_) => None,
                            Err(e) => Some(e),
                        },
                    )
                },
            },
    {
        self.edge = Some(slot);
        match heap.load(slot) {
            None => Ok(()),
            Some(object) => {
                match self.trace_object(object, facts, lxr, state) {
                    Ok(_) => Ok(()),
                    Err(e) => Err(e),
                }
            },
        }
    }

    /// Traces the object that the current slot leads to. An object that was not
    /// marked yet is checked, and is scanned next. The first thing that is
    /// wrong is the error. The valid-object bit is looked at last, and however
    /// often the object is traced.
    pub fn trace_object(
        &mut self,
        object: ObjectReference,
        facts: &ObjectFacts,
        lxr: &mut Lxr,
        state: &mut SanityState,
    ) -> (r: Result<ObjectReference, SanityError>)
        requires
            old(lxr).wf(),
            old(self).edge is Some,
        ensures
            final(lxr).wf(),
            r matches Ok(o) ==> o == object,
            traced(
                *old(self),
                *final(self),
                *old(lxr),
                *final(lxr),
                *old(state),
                *final(state),
                old(self).edge->0,
                *facts,
                object,
                match r {
                    Ok(_) => None,
                    Err(e) => Some(e),
                },
            ),
    {
        count_found_reference(&mut lxr.rc_sanity_objects, object);
        let edge: usize = match self.edge {
            Some(e) => e,
            None => 0,
        };
        if facts.edge_mapped && lxr.tables.field_unlog.load(edge) == LOGGED_VALUE {
            return Err(SanityError::Logged(object));
        }
        if self.attempt_mark(state, object) {
            if !facts.is_sane {
                return Err(SanityError::Insane(object));
            }
            if !facts.is_mapped {
                return Err(SanityError::Unmapped(object));
            }
            if lxr.strong_count(object) == 0 && lxr.candidate_status(object) == 0 {
                return Err(SanityError::NoStrongReference(object));
            }
            if lxr.strong_count(object) > lxr.count(object) {
                return Err(SanityError::StrongExceedsCount(object));
            }
            if facts.first_word == DEAD_WORD {
                return Err(SanityError::Killed(object));
            }
            if lxr.count(object) == 0 {
                return Err(SanityError::ZeroCount(object));
            }
            if facts.is_forwarded {
                return Err(SanityError::Forwarded(object));
            }
            if facts.in_immix_space && facts.block_unallocated {
                return Err(SanityError::BlockReleased(object));
            }
            let full_trace = match lxr.current_pause {
                None => {
                    return Err(SanityError::NoPause(object));
                },
                Some(Pause::FinalMark) => true,
                Some(Pause::Full) => true,
                Some(_) => false,
            };
            if full_trace && !facts.is_marked {
                return Err(SanityError::NotMarked(object));
            }
            self.nodes.push(object);
        }
        if facts.vo_bit == Some(false) {
            return Err(SanityError::NoVoBit(object));
        }
        Ok(object)
    }
}

/// Scans objects: the slots of each are traced next.
pub struct ScanObjects {
    /// The objects.
    pub buffer: Vec<ObjectReference>,
    /// Whether they are roots.
    pub roots: bool,
    /// Whether classes that the objects name are discovered.
    pub discovery: bool,
    /// When it runs.
    pub bucket: WorkBucketStage,
}

impl SanityGCProcessEdges {
    /// Work that scans the objects.
    pub fn create_scan_work(&self, nodes: Vec<ObjectReference>) -> (r: ScanObjects)
        ensures
            r == (ScanObjects {
                buffer: nodes,
                roots: false,
                discovery: false,
                bucket: WorkBucketStage::Closure,
            }),
    {
        ScanObjects {
            buffer: nodes,
            roots: false,
            discovery: false,
            bucket: WorkBucketStage::Closure,
        }
    }

    /// Traces the object without checking it, and adds its size to what is
    /// live. The sizes wrap.
    pub fn trace_object_for_analysis(
        &mut self,
        object: ObjectReference,
        heap: &Heap,
        state: &mut SanityState,
    ) -> (r: ObjectReference)
        requires
            heap.wf(),
            heap.contains(object),
        ensures
            r == object,
            old(state).mark_bits@[object.granule()] == old(state).mark_state ==> *final(self)
                == *old(self) && *final(state) == *old(state),
            old(state).mark_bits@[object.granule()] != old(state).mark_state ==> {
                let info = heap.info(object);
                &&& *final(self) == (SanityGCProcessEdges { nodes: final(self).nodes, ..*old(self) })
                &&& final(self).nodes@ == old(self).nodes@.push(object)
                &&& final(state).mark_state == old(state).mark_state
                &&& final(state).mark_bits@ == old(state).mark_bits@.insert(
                    object.granule(),
                    old(state).mark_state,
                )
                &&& final(state).live_size_ix == (if info.in_immix_space {
                    old(state).live_size_ix.wrapping_add(info.size)
                } else {
                    old(state).live_size_ix
                })
                &&& final(state).live_size_los == (if info.in_immix_space {
                    old(state).live_size_los
                } else {
                    old(state).live_size_los.wrapping_add(info.size)
                })
            },
    {
        if self.attempt_mark(state, object) {
            let info = heap.get(object);
            if info.in_immix_space {
                state.live_size_ix = state.live_size_ix.wrapping_add(info.size);
            } else {
                state.live_size_los = state.live_size_los.wrapping_add(info.size);
            }
            self.nodes.push(object);
        }
        object
    }
}

/// What tracing the object `o`, to which the slot `edge` leads, does.
pub open spec fn traced(
    old_w: SanityGCProcessEdges,
    new_w: SanityGCProcessEdges,
    old_lxr: Lxr,
    new_lxr: Lxr,
    old_state: SanityState,
    new_state: SanityState,
    edge: usize,
    facts: ObjectFacts,
    o: ObjectReference,
    error: Option<SanityError>,
) -> bool {
    let logged = facts.edge_mapped && old_lxr.tables.field_unlog@[edge] == LOGGED_VALUE;
    let fresh = old_state.mark_bits@[o.granule()] != old_state.mark_state;
    &&& new_lxr == (Lxr { rc_sanity_objects: new_lxr.rc_sanity_objects, ..old_lxr })
    &&& new_lxr.rc_sanity_objects@ == count_reference(old_lxr.rc_sanity_objects@, o)
    &&& new_state == (SanityState { mark_bits: new_state.mark_bits, ..old_state })
    &&& new_w == (SanityGCProcessEdges { nodes: new_w.nodes, ..old_w })
    &&& error == (if logged {
        Some(SanityError::Logged(o))
    } else if fresh && object_error(old_lxr, facts, o) is Some {
        object_error(old_lxr, facts, o)
    } else if facts.vo_bit == Some(false) {
        Some(SanityError::NoVoBit(o))
    } else {
        None
    })
    &&& new_state.mark_bits@ == (if !logged && fresh {
        old_state.mark_bits@.insert(o.granule(), old_state.mark_state)
    } else {
        old_state.mark_bits@
    })
    &&& new_w.nodes@ == (if !logged && fresh && object_error(old_lxr, facts, o) is None {
        old_w.nodes@.push(o)
    } else {
        old_w.nodes@
    })
}

/// An object is scanned once in an epoch: where it was traced before, tracing it
/// again finds nothing wrong with it but a logged slot or a missing valid-object
/// bit, marks nothing and hands out nothing to scan.
pub proof fn object_is_scanned_once(
    w: (SanityGCProcessEdges, SanityGCProcessEdges, SanityGCProcessEdges, SanityGCProcessEdges),
    lxr: (Lxr, Lxr, Lxr, Lxr),
    state: (SanityState, SanityState, SanityState),
    edge: (usize, usize),
    facts: (ObjectFacts, ObjectFacts),
    o: ObjectReference,
    error: Option<SanityError>,
)
    requires
        traced(
            w.0,
            w.1,
            lxr.0,
            lxr.1,
            state.0,
            state.1,
            edge.0,
            facts.0,
            o,
            None,
        ),
        traced(w.2, w.3, lxr.2, lxr.3, state.1, state.2, edge.1, facts.1, o, error),
    ensures
        w.3.nodes@ == w.2.nodes@,
        state.2.mark_bits@ == state.1.mark_bits@,
        error is None || error == Some(SanityError::Logged(o)) || error == Some(
            SanityError::NoVoBit(o),
        ),
{
}

/// Counts one more reference to `o` where its references are counted.
fn count_found_reference(objects: &mut Vec<(ObjectReference, u8)>, o: ObjectReference)
    ensures
        final(objects)@ == count_reference(old(objects)@, o),
{
    let mut i: usize = 0;
    while i < objects.len()
        invariant
            i <= objects@.len(),
            objects@.len() == old(objects)@.len(),
            forall|k: int|
                #![trigger objects@[k]]
                0 <= k < objects@.len() ==> objects@[k] == (if k < i {
                    count_reference(old(objects)@, o)[k]
                } else {
                    old(objects)@[k]
                }),
        decreases objects@.len() - i,
    {
        let (obj, rc) = objects[i];
        if obj == o && rc < MAX_REF_COUNT {
            objects.set(i, (obj, rc + 1));
        }
        i = i + 1;
    }
    assert(objects@ =~= count_reference(old(objects)@, o));
}

/// Checks what a sanity trace left.
#[derive(Clone, Copy, Debug)]
pub struct SanityRelease;

/// The first of the objects from place `i` on that has fewer references than
/// were found. A saturated count says nothing.
pub open spec fn count_error(
    rc: Map<usize, u8>,
    objects: Seq<(ObjectReference, u8)>,
    i: int,
) -> Option<SanityError>
    decreases objects.len() - i,
{
    if i < 0 || i >= objects.len() {
        None
    } else {
        let n = rc[objects[i].0.granule()];
        if n != 255 && n < objects[i].1 {
            Some(SanityError::CountTooLow(objects[i].0))
        } else {
            count_error(rc, objects, i + 1)
        }
    }
}

/// Whether an object starts at address `a`: it has a count, and it is not the
/// start of a line that an earlier object covers.
pub open spec fn object_starts_at(lxr: Lxr, a: usize) -> bool {
    &&& lxr.tables.rc@[address::granule_of(a)] > 0
    &&& (a % 256 != 0 || lxr.tables.rc_straddle_lines@[address::line_of(a)] == 0)
}

/// Whether `o` has a strong reference or is a candidate.
pub open spec fn held(lxr: Lxr, o: ObjectReference) -> bool {
    lxr.cycle_state().is_held(o)
}

/// What is wrong with the object that starts at `a` in a block that ends at
/// `limit`: nothing holds it, or it reaches beyond the block.
pub open spec fn placed_error(heap: Heap, lxr: Lxr, limit: int, a: usize) -> Option<SanityError> {
    let o = ObjectReference { addr: a };
    if !held(lxr, o) {
        Some(SanityError::NoStrongReference(o))
    } else if a + heap.info(o).size > limit {
        Some(SanityError::OverrunsBlock(o))
    } else {
        None
    }
}

/// How far it is from `a` to where the next object may start.
pub open spec fn stride(heap: Heap, lxr: Lxr, a: usize) -> int {
    let size = heap.info(ObjectReference { addr: a }).size;
    if object_starts_at(lxr, a) && size > 0 {
        size as int
    } else {
        16
    }
}

/// Whether the heap knows every object that a walk from address `a` comes to in a
/// block that ends at `limit`. The walk ends at the first thing that is wrong.
pub open spec fn walkable_from(heap: Heap, lxr: Lxr, limit: int, a: int) -> bool
    decreases if a < limit { limit - a } else { 0 },
{
    if a < 0 || a >= limit || a > usize::MAX {
        true
    } else {
        let o = ObjectReference { addr: a as usize };
        &&& object_starts_at(lxr, a as usize) ==> heap.contains(o) && heap.info(o).size > 0
        &&& (object_starts_at(lxr, a as usize) && placed_error(
            heap,
            lxr,
            limit,
            a as usize,
        ) is Some) || walkable_from(heap, lxr, limit, a + stride(heap, lxr, a as usize))
    }
}

/// Whether the heap knows every object that a walk through the block comes to.
pub open spec fn walkable(heap: Heap, lxr: Lxr, b: Block) -> bool {
    &&& b.wf()
    &&& walkable_from(heap, lxr, b.start + 32768, b.start as int)
}

/// The first thing that is wrong in the block from address `a` on.
pub open spec fn block_error(heap: Heap, lxr: Lxr, limit: int, a: int) -> Option<SanityError>
    decreases if a < limit { limit - a } else { 0 },
{
    if a < 0 || a >= limit || a > usize::MAX {
        None
    } else if object_starts_at(lxr, a as usize) && placed_error(heap, lxr, limit, a as usize) is Some {
        placed_error(heap, lxr, limit, a as usize)
    } else {
        block_error(heap, lxr, limit, a + stride(heap, lxr, a as usize))
    }
}

/// The first thing that is wrong in the blocks from place `i` on.
pub open spec fn blocks_error(heap: Heap, lxr: Lxr, blocks: Seq<Block>, i: int) -> Option<
    SanityError,
>
    decreases blocks.len() - i,
{
    if i < 0 || i >= blocks.len() {
        None
    } else {
        match block_error(heap, lxr, blocks[i].start + 32768, blocks[i].start as int) {
            Some(e) => Some(e),
            None => blocks_error(heap, lxr, blocks, i + 1),
        }
    }
}

/// The first thing that is wrong with the large objects from place `i` on.
pub open spec fn large_error(lxr: Lxr, large: Seq<ObjectReference>, i: int) -> Option<SanityError>
    decreases large.len() - i,
{
    if i < 0 || i >= large.len() {
        None
    } else if lxr.tables.rc@[large[i].granule()] == 0 {
        Some(SanityError::ZeroCount(large[i]))
    } else if !held(lxr, large[i]) {
        Some(SanityError::NoStrongReference(large[i]))
    } else {
        large_error(lxr, large, i + 1)
    }
}

/// Only the tables say what is wrong with a large object.
proof fn large_error_reads_tables(a: Lxr, b: Lxr, large: Seq<ObjectReference>, i: int)
    requires
        a.tables == b.tables,
    ensures
        large_error(a, large, i) == large_error(b, large, i),
    decreases large.len() - i,
{
    if 0 <= i < large.len() {
        large_error_reads_tables(a, b, large, i + 1);
    }
}

/// The first thing that is wrong with the counted references or in the blocks.
pub open spec fn walk_error(heap: Heap, lxr: Lxr, blocks: Seq<Block>) -> Option<SanityError> {
    match count_error(lxr.tables.rc@, lxr.rc_sanity_objects@, 0) {
        Some(e) => Some(e),
        None => blocks_error(heap, lxr, blocks, 0),
    }
}

/// The first thing that is wrong after the trace.
pub open spec fn release_error(
    heap: Heap,
    lxr: Lxr,
    blocks: Seq<Block>,
    large: Seq<ObjectReference>,
) -> Option<SanityError> {
    match walk_error(heap, lxr, blocks) {
        Some(e) => Some(e),
        None => large_error(lxr, large, 0),
    }
}

impl SanityRelease {
    /// A packet that checks what the trace left.
    pub fn new() -> (r: SanityRelease) {
        SanityRelease
    }

    /// Checks the references that the trace has counted.
    fn check_counts(&self, lxr: &Lxr) -> (r: Option<SanityError>)
        ensures
            r == count_error(lxr.tables.rc@, lxr.rc_sanity_objects@, 0),
    {
        let mut i: usize = 0;
        while i < lxr.rc_sanity_objects.len()
            invariant
                i <= lxr.rc_sanity_objects@.len(),
                count_error(lxr.tables.rc@, lxr.rc_sanity_objects@, 0) == count_error(
                    lxr.tables.rc@,
                    lxr.rc_sanity_objects@,
                    i as int,
                ),
            decreases lxr.rc_sanity_objects@.len() - i,
        {
            let (obj, rc) = lxr.rc_sanity_objects[i];
            let real_rc: u8 = lxr.rc.count(&lxr.tables, obj);
            if !lxr.rc.is_stuck(&lxr.tables, obj) && real_rc < rc {
                return Some(SanityError::CountTooLow(obj));
            }
            i = i + 1;
        }
        None
    }

    /// Whether `o` has a strong reference or is a candidate.
    fn is_held(&self, lxr: &Lxr, o: ObjectReference) -> (r: bool)
        ensures
            r == held(*lxr, o),
    {
        lxr.strong_count(o) > 0 || lxr.candidate_status(o) != 0
    }

    /// Whether an object starts at address `a`.
    fn object_starts(&self, lxr: &Lxr, a: usize) -> (r: bool)
        ensures
            r == object_starts_at(*lxr, a),
    {
        let o = ObjectReference { addr: a };
        lxr.count(o) > 0 && (!Line::is_aligned(a) || !lxr.rc.is_straddle_line(
            &lxr.tables,
            Line::containing(a),
        ))
    }

    /// Walks the objects of the block.
    fn check_block(&self, heap: &Heap, lxr: &Lxr, block: Block) -> (r: Option<SanityError>)
        requires
            heap.wf(),
            walkable(*heap, *lxr, block),
        ensures
            r == block_error(*heap, *lxr, block.start + 32768, block.start as int),
    {
        let limit: usize = block.start + BYTES_IN_BLOCK;
        let mut cursor: usize = block.start;
        while cursor < limit
            invariant
                heap.wf(),
                block.wf(),
                walkable_from(*heap, *lxr, limit as int, cursor as int),
                limit == block.start + 32768,
                block.start <= cursor <= limit + 15,
                block_error(*heap, *lxr, limit as int, block.start as int) == block_error(
                    *heap,
                    *lxr,
                    limit as int,
                    cursor as int,
                ),
            decreases limit + 16 - cursor,
        {
            let o = ObjectReference { addr: cursor };
            if self.object_starts(lxr, cursor) {
                let size: usize = heap.get(o).size;
                if !self.is_held(lxr, o) {
                    return Some(SanityError::NoStrongReference(o));
                }
                if size > limit - cursor {
                    return Some(SanityError::OverrunsBlock(o));
                }
                cursor = cursor + size;
            } else {
                cursor = cursor + MIN_OBJECT_SIZE;
            }
        }
        None
    }

    /// Whether the heap knows every object that a walk through the block comes to.
    pub fn can_walk(&self, heap: &Heap, lxr: &Lxr, block: Block) -> (r: bool)
        requires
            heap.wf(),
        ensures
            r == walkable(*heap, *lxr, block),
    {
        if block.start % BYTES_IN_BLOCK != 0 || block.start > usize::MAX - BYTES_IN_BLOCK {
            return false;
        }
        let limit: usize = block.start + BYTES_IN_BLOCK;
        let mut cursor: usize = block.start;
        while cursor < limit
            invariant
                heap.wf(),
                block.wf(),
                limit == block.start + 32768,
                block.start <= cursor <= limit + 15,
                walkable(*heap, *lxr, block) == walkable_from(
                    *heap,
                    *lxr,
                    limit as int,
                    cursor as int,
                ),
            decreases limit + 16 - cursor,
        {
            let o = ObjectReference { addr: cursor };
            if self.object_starts(lxr, cursor) {
                if !heap.has(o) || heap.get(o).size == 0 {
                    return false;
                }
                let size: usize = heap.get(o).size;
                if !self.is_held(lxr, o) || size > limit - cursor {
                    return true;
                }
                cursor = cursor + size;
            } else {
                cursor = cursor + MIN_OBJECT_SIZE;
            }
        }
        true
    }

    /// Walks the objects of the blocks.
    fn check_blocks(&self, heap: &Heap, lxr: &Lxr, blocks: &Vec<Block>) -> (r: Option<SanityError>)
        requires
            heap.wf(),
            forall|i: int| 0 <= i < blocks@.len() ==> walkable(*heap, *lxr, #[trigger] blocks@[i]),
        ensures
            r == blocks_error(*heap, *lxr, blocks@, 0),
    {
        let mut i: usize = 0;
        while i < blocks.len()
            invariant
                heap.wf(),
                forall|k: int|
                    0 <= k < blocks@.len() ==> walkable(*heap, *lxr, #[trigger] blocks@[k]),
                i <= blocks@.len(),
                blocks_error(*heap, *lxr, blocks@, 0) == blocks_error(
                    *heap,
                    *lxr,
                    blocks@,
                    i as int,
                ),
            decreases blocks@.len() - i,
        {
            if let Some(e) = self.check_block(heap, lxr, blocks[i]) {
                return Some(e);
            }
            i = i + 1;
        }
        None
    }

    /// Checks the large objects.
    fn check_large(&self, lxr: &Lxr, large: &Vec<ObjectReference>) -> (r: Option<SanityError>)
        ensures
            r == large_error(*lxr, large@, 0),
    {
        let mut i: usize = 0;
        while i < large.len()
            invariant
                i <= large@.len(),
                large_error(*lxr, large@, 0) == large_error(*lxr, large@, i as int),
            decreases large@.len() - i,
        {
            if lxr.count(large[i]) == 0 {
                return Some(SanityError::ZeroCount(large[i]));
            }
            if !self.is_held(lxr, large[i]) {
                return Some(SanityError::NoStrongReference(large[i]));
            }
            i = i + 1;
        }
        None
    }

    /// Checks what the trace left: the counted references, the objects in the
    /// allocated blocks, and the large objects. The first thing that is wrong is
    /// the error. The counted references are forgotten once the blocks are
    /// checked, and the roots once everything is.
    pub fn do_work(
        &self,
        heap: &Heap,
        lxr: &mut Lxr,
        blocks: &Vec<Block>,
        large: &Vec<ObjectReference>,
        checker: &mut SanityChecker,
    ) -> (r: Result<(), SanityError>)
        requires
            heap.wf(),
            old(lxr).wf(),
            forall|i: int|
                0 <= i < blocks@.len() ==> walkable(*heap, *old(lxr), #[trigger] blocks@[i]),
        ensures
            final(lxr).wf(),
            *final(lxr) == (Lxr { rc_sanity_objects: final(lxr).rc_sanity_objects, ..*old(lxr) }),
            final(lxr).rc_sanity_objects@ == (if walk_error(*heap, *old(lxr), blocks@) is None {
                Seq::<(ObjectReference, u8)>::empty()
            } else {
                old(lxr).rc_sanity_objects@
            }),
            match r {
                Ok(_) => {
                    &&& release_error(*heap, *old(lxr), blocks@, large@) is None
                    &&& final(checker).refs == old(checker).refs
                    &&& final(checker).root_slots@ == Seq::<(Vec<usize>, RootKind)>::empty()
                    &&& final(checker).root_nodes@ == Seq::<Vec<ObjectReference>>::empty()
                },
                Err(e) => {
                    &&& release_error(*heap, *old(lxr), blocks@, large@) == Some(e)
                    &&& *final(checker) == *old(checker)
                },
            },
    {
        if let Some(e) = self.check_counts(lxr) {
            return Err(e);
        }
        if let Some(e) = self.check_blocks(heap, lxr, blocks) {
            return Err(e);
        }
        lxr.rc_sanity_objects.clear();
        proof {
            large_error_reads_tables(*old(lxr), *lxr, large@, 0);
        }
        if let Some(e) = self.check_large(lxr, large) {
            return Err(e);
        }
        checker.clear_roots_cache();
        Ok(())
    }
}

} // verus!
