//! What cycle collection does, step by step, as functions on the state of the
//! tables.

use crate::plan::lxr::overflow_rc_cache;
use crate::util::address;
use crate::util::address::ObjectReference;
use crate::util::rc;
use crate::util::rc::{Counts, BLACK_IN_STACK, BLACK_OUT_OF_STACK, GREY, WHITE};
use crate::vm::heap::Heap;
use vstd::prelude::*;

verus! {

/// What was reclaimed, in numbers. The counters wrap.
#[derive(Clone, Copy, Debug, PartialEq, Eq, Structural)]
pub struct DeadStats {
    /// Objects.
    pub dead_mature_objects: usize,
    /// Their bytes.
    pub dead_mature_volume: usize,
    /// Objects that reference counting found.
    pub dead_mature_rc_objects: usize,
    /// Their bytes.
    pub dead_mature_rc_volume: usize,
    /// Large objects.
    pub dead_mature_los_objects: usize,
    /// Their bytes.
    pub dead_mature_los_volume: usize,
    /// Large objects that reference counting found.
    pub dead_mature_rc_los_objects: usize,
    /// Their bytes.
    pub dead_mature_rc_los_volume: usize,
}

impl DeadStats {
    /// The numbers after one more object of `size` bytes, large if `large`.
    pub open spec fn with(self, size: usize, large: bool) -> DeadStats {
        let s = DeadStats {
            dead_mature_objects: self.dead_mature_objects.wrapping_add(1),
            dead_mature_volume: self.dead_mature_volume.wrapping_add(size),
            dead_mature_rc_objects: self.dead_mature_rc_objects.wrapping_add(1),
            dead_mature_rc_volume: self.dead_mature_rc_volume.wrapping_add(size),
            ..self
        };
        if large {
            DeadStats {
                dead_mature_los_objects: self.dead_mature_los_objects.wrapping_add(1),
                dead_mature_los_volume: self.dead_mature_los_volume.wrapping_add(size),
                dead_mature_rc_los_objects: self.dead_mature_rc_los_objects.wrapping_add(1),
                dead_mature_rc_los_volume: self.dead_mature_rc_los_volume.wrapping_add(size),
                ..s
            }
        } else {
            s
        }
    }
}

/// The state that cycle collection works on.
#[verifier::ext_equal]
pub struct CycleState {
    /// Reference counts.
    pub counts: Counts,
    /// How many objects have an excess.
    pub overflowed: usize,
    /// Strong counts.
    pub strong: Map<usize, u8>,
    /// Colours.
    pub color: Map<usize, u8>,
    /// For a candidate the number of its pool plus one, otherwise 0.
    pub cand: Map<usize, u8>,
    /// The straddled lines.
    pub straddle: Map<usize, u8>,
    /// In how many collections each granule was found dead by a sanity trace.
    pub dead_cycles: Map<usize, u8>,
    /// The objects whose first word says that they are dead, in the order of
    /// their deaths.
    pub overwritten: Seq<ObjectReference>,
    /// The blocks in which an object died, one entry for each death.
    pub dead_blocks: Seq<usize>,
    /// The large objects that were freed.
    pub freed_large: Seq<ObjectReference>,
    /// The addresses of the objects that were reclaimed.
    pub freed: Seq<usize>,
    /// What was reclaimed, in numbers.
    pub dead: DeadStats,
}

/// The fixed surroundings of a collection: the object graph, which slots are
/// logged, what logged slots held, and the number that tags new candidates.
#[verifier::ext_equal]
pub struct Snapshot {
    /// The object graph.
    pub heap: Heap,
    /// The unlog bits.
    pub unlog: Map<usize, u8>,
    /// What a slot held before it was logged.
    pub satb: Map<usize, Option<ObjectReference>>,
    /// The number of the pool that takes new candidates, plus one.
    pub tag: u8,
}

impl CycleState {
    /// The colour of `o`.
    pub open spec fn color_of(self, o: ObjectReference) -> u8 {
        self.color[o.granule()]
    }

    /// Whether `o` is black.
    pub open spec fn is_black(self, o: ObjectReference) -> bool {
        self.color[o.granule()] <= BLACK_IN_STACK
    }

    /// Whether `o` has a strong reference or is a candidate.
    pub open spec fn is_held(self, o: ObjectReference) -> bool {
        self.strong[o.granule()] > 0 || self.cand[o.granule()] != 0
    }

    /// The state with `o` coloured `c`.
    pub open spec fn paint(self, o: ObjectReference, c: u8) -> CycleState {
        CycleState { color: self.color.insert(o.granule(), c), ..self }
    }

    /// The state with the candidate tag of `o` set to `n`.
    pub open spec fn tagged(self, o: ObjectReference, n: u8) -> CycleState {
        CycleState { cand: self.cand.insert(o.granule(), n), ..self }
    }

    /// The state with the strong count of `o` set to `n`.
    pub open spec fn with_strong(self, o: ObjectReference, n: u8) -> CycleState {
        CycleState { strong: self.strong.insert(o.granule(), n), ..self }
    }

    /// The state with one reference to `o` more.
    pub open spec fn inc(self, o: ObjectReference) -> CycleState {
        CycleState {
            counts: self.counts.inc(o.granule()),
            overflowed: overflow_rc_cache::overflowed_after_inc(self.counts, self.overflowed, o.granule()),
            ..self
        }
    }

    /// The state with one reference to `o` less.
    pub open spec fn dec(self, o: ObjectReference) -> CycleState {
        CycleState {
            counts: self.counts.dec(o.granule()),
            overflowed: overflow_rc_cache::overflowed_after_dec(self.counts, self.overflowed, o.granule()),
            ..self
        }
    }

    /// The state with the strong count of `o` one higher.
    pub open spec fn strong_inc(self, o: ObjectReference) -> CycleState {
        self.with_strong(o, rc::strong_inc(self.strong[o.granule()]))
    }

    /// The state with the strong count of `o` one lower.
    pub open spec fn strong_dec(self, o: ObjectReference) -> CycleState {
        self.with_strong(o, rc::strong_dec(self.strong[o.granule()]))
    }

    /// The state with the count of `o` in the table one lower. A count of 0 and
    /// a saturated one stay.
    pub open spec fn table_dec(self, o: ObjectReference) -> CycleState {
        let n = self.counts.rc[o.granule()];
        if n == 0 || n == 255 {
            self
        } else {
            CycleState {
                counts: Counts {
                    rc: self.counts.rc.insert(o.granule(), (n - 1) as u8),
                    ..self.counts
                },
                ..self
            }
        }
    }
}

/// What the slots hold, without those that are empty.
pub open spec fn refs(heap: Heap, slots: Seq<usize>) -> Seq<ObjectReference>
    decreases slots.len(),
{
    if slots.len() == 0 {
        Seq::empty()
    } else {
        match heap.fields@[slots.last()] {
            Some(x) => refs(heap, slots.drop_last()).push(x),
            None => refs(heap, slots.drop_last()),
        }
    }
}

/// What the slots held when the collection began, without those that were
/// empty: for a logged slot, what was recorded of it.
pub open spec fn satb_refs(c: Snapshot, slots: Seq<usize>) -> Seq<ObjectReference>
    decreases slots.len(),
{
    if slots.len() == 0 {
        Seq::empty()
    } else {
        match c.old_value(slots.last()) {
            Some(x) => satb_refs(c, slots.drop_last()).push(x),
            None => satb_refs(c, slots.drop_last()),
        }
    }
}

/// The first place from `i` on whose slot is logged; the number of slots if
/// there is none.
pub open spec fn first_logged(unlog: Map<usize, u8>, slots: Seq<usize>, i: int) -> int
    decreases slots.len() - i,
{
    if i >= slots.len() || unlog[slots[i]] == 0 {
        i
    } else {
        first_logged(unlog, slots, i + 1)
    }
}

impl Snapshot {
    /// What the slot held when the collection began.
    pub open spec fn old_value(self, slot: usize) -> Option<ObjectReference> {
        if self.unlog[slot] == 1 {
            self.heap.fields@[slot]
        } else {
            self.satb[slot]
        }
    }

    /// Whether a slot of `o` is logged.
    pub open spec fn has_logged_slot(self, o: ObjectReference) -> bool {
        first_logged(self.unlog, self.heap.slots(o), 0) < self.heap.slots(o).len()
    }

    /// The slots of `o` before its first logged one.
    pub open spec fn unlogged_slots(self, o: ObjectReference) -> Seq<usize> {
        self.heap.slots(o).take(first_logged(self.unlog, self.heap.slots(o), 0))
    }

    /// The graph is well-formed, unlog bits are bits, and tags are those of a
    /// pool.
    pub open spec fn wf(self) -> bool {
        &&& self.heap.wf()
        &&& forall|a: usize| #![trigger self.unlog[a]] self.unlog[a] <= 1
        &&& 1 <= self.tag <= 3
    }

    /// Whether every object of `stack` is in the heap.
    pub open spec fn holds(self, stack: Seq<ObjectReference>) -> bool {
        forall|i: int| 0 <= i < stack.len() ==> self.heap.contains(#[trigger] stack[i])
    }

    /// Every logged slot of an object that is not black is recorded, and what
    /// is recorded is in the heap.
    pub open spec fn covers(self, color: Map<usize, u8>) -> bool {
        &&& forall|k: int, j: int|
            #![trigger self.heap.objects@[k].slots@[j]]
            0 <= k < self.heap.objects@.len() && 0 <= j < self.heap.objects@[k].slots@.len()
                && color[self.heap.objects@[k].object.granule()] >= 2
                && self.unlog[self.heap.objects@[k].slots@[j]] != 1 ==> self.satb.dom().contains(
                self.heap.objects@[k].slots@[j],
            )
        &&& forall|a: usize, x: ObjectReference|
            #![trigger self.heap.contains(x), self.satb[a]]
            self.satb.dom().contains(a) && self.satb[a] == Some(x) ==> self.heap.contains(x)
    }
}

/// The state after the references to `xs` were taken away on trial.
pub open spec fn take_away(s: CycleState, xs: Seq<ObjectReference>) -> CycleState
    decreases xs.len(),
{
    if xs.len() == 0 {
        s
    } else {
        take_away(s, xs.drop_last()).dec(xs.last()).strong_dec(xs.last())
    }
}

/// The state after the references to `xs` were given back, the last one first,
/// and each of `xs` became a candidate. The strong counts are not given back.
pub open spec fn give_back(s: CycleState, xs: Seq<ObjectReference>, tag: u8) -> CycleState
    decreases xs.len(),
{
    if xs.len() == 0 {
        s
    } else {
        let x = xs.last();
        let t = s.inc(x).tagged(x, tag);
        give_back(
            if t.is_black(x) {
                t
            } else {
                t.strong_dec(x)
            },
            xs.drop_last(),
            tag,
        )
    }
}

/// A traversal in progress.
#[verifier::ext_equal]
pub struct Walk {
    /// The state of the tables.
    pub s: CycleState,
    /// The objects still to be visited.
    pub stack: Seq<ObjectReference>,
    /// The objects that became candidates, in order.
    pub out: Seq<ObjectReference>,
    /// How many objects were counted as visited. The counter wraps.
    pub visited: usize,
    /// How many objects a traversal inside this one counted as visited. The
    /// counter wraps.
    pub nested: usize,
}

/// A traversal about to begin at `o`.
pub open spec fn walk_from(
    s: CycleState,
    o: ObjectReference,
    visited: usize,
    nested: usize,
) -> Walk {
    Walk { s, stack: seq![o], out: Seq::empty(), visited, nested }
}

/// Whether trial deletion goes into `o`: it is black, nothing refers to it
/// strongly, and it is no candidate.
pub open spec fn markable(s: CycleState, o: ObjectReference) -> bool {
    &&& s.is_black(o)
    &&& s.strong[o.granule()] == 0
    &&& s.cand[o.granule()] == 0
}

/// One step of trial deletion.
///
/// An object that it goes into turns grey and loses the references from its
/// slots, up to the first logged one. Where there is a logged one, these
/// references are given back, and the object and those it referred to become
/// candidates for a later collection. Any other black object is left for later.
pub open spec fn mark_step(c: Snapshot, w: Walk) -> Walk {
    let o = w.stack.last();
    let rest = w.stack.drop_last();
    if markable(w.s, o) {
        let xs = refs(c.heap, c.unlogged_slots(o));
        let t = take_away(w.s.paint(o, GREY), xs);
        let visited = w.visited.wrapping_add(1);
        if c.has_logged_slot(o) {
            Walk {
                s: give_back(t.paint(o, BLACK_IN_STACK), xs, c.tag).tagged(o, c.tag),
                stack: rest,
                out: w.out + xs.reverse() + seq![o],
                visited,
                ..w
            }
        } else {
            Walk { s: t, stack: rest + xs, visited, ..w }
        }
    } else if w.s.is_black(o) {
        Walk { s: w.s.paint(o, BLACK_IN_STACK), stack: rest, ..w }
    } else {
        Walk { stack: rest, ..w }
    }
}

/// How many of the first `n` objects of the heap have a granule in `p`.
pub open spec fn count_objects(heap: Heap, p: spec_fn(usize) -> bool, n: nat) -> nat
    decreases n,
{
    if n == 0 {
        0
    } else {
        count_objects(heap, p, (n - 1) as nat) + (if p(
            heap.objects@[n - 1].object.granule(),
        ) {
            1nat
        } else {
            0nat
        })
    }
}

/// How many objects of the heap have a granule in `p`.
pub open spec fn count_all(heap: Heap, p: spec_fn(usize) -> bool) -> nat {
    count_objects(heap, p, heap.objects@.len())
}

/// Fewer granules, fewer objects.
pub proof fn count_objects_monotone(
    heap: Heap,
    p: spec_fn(usize) -> bool,
    q: spec_fn(usize) -> bool,
    n: nat,
)
    requires
        n <= heap.objects@.len(),
        forall|g: usize| #[trigger] q(g) ==> p(g),
    ensures
        count_objects(heap, q, n) <= count_objects(heap, p, n),
    decreases n,
{
    if n > 0 {
        count_objects_monotone(heap, p, q, (n - 1) as nat);
    }
}

/// An object whose granule drops out lowers the count.
pub proof fn count_objects_drop(
    heap: Heap,
    p: spec_fn(usize) -> bool,
    q: spec_fn(usize) -> bool,
    n: nat,
    k: int,
)
    requires
        n <= heap.objects@.len(),
        0 <= k < n,
        forall|g: usize| #[trigger] q(g) ==> p(g),
        p(heap.objects@[k].object.granule()),
        !q(heap.objects@[k].object.granule()),
    ensures
        count_objects(heap, q, n) < count_objects(heap, p, n),
    decreases n,
{
    if k < n - 1 {
        count_objects_drop(heap, p, q, (n - 1) as nat, k);
    } else {
        count_objects_monotone(heap, p, q, (n - 1) as nat);
    }
}

/// The granules that trial deletion can still go into.
pub open spec fn unmarked(s: CycleState) -> spec_fn(usize) -> bool {
    |g: usize| s.color[g] <= 1 && s.cand[g] == 0
}

/// Taking references away changes neither colours nor candidates.
pub proof fn take_away_frame(s: CycleState, xs: Seq<ObjectReference>)
    ensures
        take_away(s, xs).color == s.color,
        take_away(s, xs).cand == s.cand,
        take_away(s, xs).straddle == s.straddle,
        take_away(s, xs).freed == s.freed,
    decreases xs.len(),
{
    if xs.len() > 0 {
        take_away_frame(s, xs.drop_last());
    }
}

/// Giving references back does not change colours, and no candidate stops
/// being one.
pub proof fn give_back_frame(s: CycleState, xs: Seq<ObjectReference>, tag: u8)
    requires
        tag != 0,
    ensures
        give_back(s, xs, tag).color == s.color,
        give_back(s, xs, tag).freed == s.freed,
        forall|g: usize| #[trigger] give_back(s, xs, tag).cand[g] == 0 ==> s.cand[g] == 0,
    decreases xs.len(),
{
    if xs.len() > 0 {
        let x = xs.last();
        let t = s.inc(x).tagged(x, tag);
        let u = if t.is_black(x) {
            t
        } else {
            t.strong_dec(x)
        };
        give_back_frame(u, xs.drop_last(), tag);
        assert forall|g: usize| #[trigger] give_back(s, xs, tag).cand[g] == 0 implies s.cand[g]
            == 0 by {
            assert(give_back(u, xs.drop_last(), tag).cand[g] == 0);
            assert(u.cand[g] == 0);
        }
    }
}

/// What slots of the heap hold is in the heap.
pub proof fn refs_in_heap(c: Snapshot, slots: Seq<usize>)
    requires
        c.heap.wf(),
        forall|j: int| 0 <= j < slots.len() ==> c.heap.fields@.dom().contains(#[trigger] slots[j]),
    ensures
        c.holds(refs(c.heap, slots)),
    decreases slots.len(),
{
    if slots.len() > 0 {
        refs_in_heap(c, slots.drop_last());
        assert(c.heap.fields@.dom().contains(slots[slots.len() - 1]));
        if let Some(x) = c.heap.fields@[slots.last()] {
            assert(c.heap.contains(x));
        }
    }
}

/// The first logged slot is at `i` or after it, and inside the slots.
pub proof fn first_logged_bounds(unlog: Map<usize, u8>, slots: Seq<usize>, i: int)
    requires
        0 <= i <= slots.len(),
    ensures
        i <= first_logged(unlog, slots, i) <= slots.len(),
    decreases slots.len() - i,
{
    if i < slots.len() && unlog[slots[i]] != 0 {
        first_logged_bounds(unlog, slots, i + 1);
    }
}

/// A step of trial deletion stays in the heap, and either goes into an object
/// that it can go into no more, or shortens the stack.
pub proof fn mark_step_progress(c: Snapshot, w: Walk)
    requires
        c.wf(),
        c.holds(w.stack),
        w.stack.len() > 0,
    ensures
        c.holds(mark_step(c, w).stack),
        count_all(c.heap, unmarked(mark_step(c, w).s)) <= count_all(c.heap, unmarked(w.s)),
        markable(w.s, w.stack.last()) ==> count_all(c.heap, unmarked(mark_step(c, w).s))
            < count_all(c.heap, unmarked(w.s)),
        !markable(w.s, w.stack.last()) ==> mark_step(c, w).stack.len() < w.stack.len(),
{
    let o = w.stack.last();
    let v = mark_step(c, w);
    let n = c.heap.objects@.len();
    assert(c.heap.contains(w.stack[w.stack.len() - 1]));
    let xs = refs(c.heap, c.unlogged_slots(o));
    first_logged_bounds(c.unlog, c.heap.slots(o), 0);
    assert forall|j: int| 0 <= j < c.unlogged_slots(o).len() implies c.heap.fields@.dom().contains(
        #[trigger] c.unlogged_slots(o)[j],
    ) by {
        assert(c.heap.objects@[c.heap.place(o)].slots@[j] == c.unlogged_slots(o)[j]);
    }
    refs_in_heap(c, c.unlogged_slots(o));
    if markable(w.s, o) {
        let g = w.s.paint(o, GREY);
        take_away_frame(g, xs);
        let t = take_away(g, xs);
        if c.has_logged_slot(o) {
            give_back_frame(t.paint(o, BLACK_IN_STACK), xs, c.tag);
        }
        assert forall|i: int| 0 <= i < v.stack.len() implies c.heap.contains(
            #[trigger] v.stack[i],
        ) by {
            if i < w.stack.len() - 1 {
                assert(v.stack[i] == w.stack[i]);
            } else {
                assert(v.stack[i] == xs[i - (w.stack.len() - 1)]);
            }
        }
        assert forall|h: usize| #[trigger] unmarked(v.s)(h) implies unmarked(w.s)(h) by {}
        count_objects_drop(c.heap, unmarked(w.s), unmarked(v.s), n, c.heap.place(o));
    } else {
        assert forall|i: int| 0 <= i < v.stack.len() implies c.heap.contains(
            #[trigger] v.stack[i],
        ) by {
            assert(v.stack[i] == w.stack[i]);
        }
        assert forall|h: usize| #[trigger] unmarked(v.s)(h) implies unmarked(w.s)(h) by {}
        count_objects_monotone(c.heap, unmarked(w.s), unmarked(v.s), n);
    }
}

/// Trial deletion, to its end.
pub open spec fn mark_all(c: Snapshot, w: Walk) -> Walk
    decreases count_all(c.heap, unmarked(w.s)), w.stack.len(),
    when c.wf() && c.holds(w.stack)
    via mark_all_decreases
{
    if w.stack.len() == 0 {
        w
    } else {
        mark_all(c, mark_step(c, w))
    }
}

#[via_fn]
proof fn mark_all_decreases(c: Snapshot, w: Walk) {
    if w.stack.len() > 0 {
        mark_step_progress(c, w);
    }
}

/// The strong count that an object gets back whose count in the table is `rc`:
/// its references, as far as a strong count reaches.
pub open spec fn restored_strong(rc: u8) -> u8 {
    if rc.wrapping_sub(1) > 15 {
        15
    } else {
        rc.wrapping_sub(1)
    }
}

/// The state after the references to `xs` were given back for good, with the
/// strong references to those that are not being restored already.
pub open spec fn restore(s: CycleState, xs: Seq<ObjectReference>) -> CycleState
    decreases xs.len(),
{
    if xs.len() == 0 {
        s
    } else {
        let x = xs.last();
        let t = restore(s, xs.drop_last()).inc(x);
        if t.color_of(x) == BLACK_IN_STACK {
            t
        } else {
            t.strong_inc(x)
        }
    }
}

/// Those of `xs` that are not being restored already.
pub open spec fn not_in_stack(
    color: Map<usize, u8>,
    xs: Seq<ObjectReference>,
) -> Seq<ObjectReference>
    decreases xs.len(),
{
    if xs.len() == 0 {
        xs
    } else if color[xs.last().granule()] == BLACK_IN_STACK {
        not_in_stack(color, xs.drop_last())
    } else {
        not_in_stack(color, xs.drop_last()).push(xs.last())
    }
}

/// One step of restoring what an object outside the garbage refers to.
///
/// An object that is not black gets its references back and stays on the stack,
/// in a colour that says so. A black one is done with and leaves.
pub open spec fn scan_black_step(c: Snapshot, w: Walk) -> Walk {
    let o = w.stack.last();
    if w.s.is_black(o) {
        Walk { s: w.s.paint(o, BLACK_OUT_OF_STACK), stack: w.stack.drop_last(), ..w }
    } else {
        let t = w.s.paint(o, BLACK_IN_STACK).with_strong(
            o,
            restored_strong(w.s.counts.rc[o.granule()]),
        );
        let xs = satb_refs(c, c.heap.slots(o));
        Walk {
            s: restore(t, xs),
            stack: w.stack + not_in_stack(t.color, xs),
            visited: w.visited.wrapping_add(1),
            ..w
        }
    }
}

/// The granules that are not black.
pub open spec fn not_black(s: CycleState) -> spec_fn(usize) -> bool {
    |g: usize| s.color[g] >= 2
}

/// Restoring references changes neither colours nor candidates.
pub proof fn restore_frame(s: CycleState, xs: Seq<ObjectReference>)
    ensures
        restore(s, xs).color == s.color,
        restore(s, xs).cand == s.cand,
        restore(s, xs).straddle == s.straddle,
        restore(s, xs).freed == s.freed,
    decreases xs.len(),
{
    if xs.len() > 0 {
        restore_frame(s, xs.drop_last());
    }
}

/// What the slots of an object that is not black held is in the heap.
pub proof fn satb_refs_in_heap(c: Snapshot, slots: Seq<usize>)
    requires
        c.wf(),
        forall|a: usize, x: ObjectReference|
            #![trigger c.heap.contains(x), c.satb[a]]
            c.satb.dom().contains(a) && c.satb[a] == Some(x) ==> c.heap.contains(x),
        forall|j: int|
            #![trigger slots[j]]
            0 <= j < slots.len() ==> c.heap.fields@.dom().contains(slots[j]) && (c.unlog[slots[j]]
                == 1 || c.satb.dom().contains(slots[j])),
    ensures
        c.holds(satb_refs(c, slots)),
    decreases slots.len(),
{
    if slots.len() > 0 {
        satb_refs_in_heap(c, slots.drop_last());
        let a = slots[slots.len() - 1];
        if let Some(x) = c.old_value(slots.last()) {
            if c.unlog[a] == 1 {
                assert(c.heap.fields@[a] == Some(x));
                assert(c.heap.contains(x));
            } else {
                assert(c.satb[a] == Some(x));
                assert(c.heap.contains(x));
            }
        }
    }
}

/// What an object that is not black referred to is in the heap.
pub proof fn old_children_in_heap(c: Snapshot, color: Map<usize, u8>, o: ObjectReference)
    requires
        c.wf(),
        c.covers(color),
        c.heap.contains(o),
        color[o.granule()] >= 2,
    ensures
        c.holds(satb_refs(c, c.heap.slots(o))),
{
    let k = c.heap.place(o);
    assert forall|j: int|
        #![trigger c.heap.slots(o)[j]]
        0 <= j < c.heap.slots(o).len() implies c.heap.fields@.dom().contains(c.heap.slots(o)[j])
        && (c.unlog[c.heap.slots(o)[j]] == 1 || c.satb.dom().contains(c.heap.slots(o)[j])) by {
        assert(c.heap.objects@[k].slots@[j] == c.heap.slots(o)[j]);
    }
    satb_refs_in_heap(c, c.heap.slots(o));
}

/// Objects picked from some of the heap are in the heap.
proof fn not_in_stack_in_heap(c: Snapshot, color: Map<usize, u8>, xs: Seq<ObjectReference>)
    requires
        c.holds(xs),
    ensures
        c.holds(not_in_stack(color, xs)),
    decreases xs.len(),
{
    if xs.len() > 0 {
        assert(c.holds(xs.drop_last())) by {
            assert forall|i: int| 0 <= i < xs.drop_last().len() implies c.heap.contains(
                #[trigger] xs.drop_last()[i],
            ) by {
                assert(xs.drop_last()[i] == xs[i]);
            }
        }
        not_in_stack_in_heap(c, color, xs.drop_last());
        assert(c.heap.contains(xs[xs.len() - 1]));
    }
}

/// The concatenation of stacks in the heap is in the heap.
pub proof fn concat_in_heap(c: Snapshot, a: Seq<ObjectReference>, b: Seq<ObjectReference>)
    requires
        c.holds(a),
        c.holds(b),
    ensures
        c.holds(a + b),
{
    assert forall|i: int| 0 <= i < (a + b).len() implies c.heap.contains(#[trigger] (a + b)[i]) by {
        if i < a.len() {
            assert((a + b)[i] == a[i]);
        } else {
            assert((a + b)[i] == b[i - a.len()]);
        }
    }
}

/// A stack without its last object is in the heap if the stack is.
pub proof fn pop_in_heap(c: Snapshot, a: Seq<ObjectReference>)
    requires
        c.holds(a),
        a.len() > 0,
    ensures
        c.holds(a.drop_last()),
        c.heap.contains(a.last()),
{
    assert forall|i: int| 0 <= i < a.drop_last().len() implies c.heap.contains(
        #[trigger] a.drop_last()[i],
    ) by {
        assert(a.drop_last()[i] == a[i]);
    }
    assert(c.heap.contains(a[a.len() - 1]));
}

/// Fewer objects that are not black are covered by the same records.
pub proof fn covers_fewer(c: Snapshot, color: Map<usize, u8>, fewer: Map<usize, u8>)
    requires
        c.covers(color),
        forall|g: usize| #[trigger] fewer[g] >= 2 ==> color[g] >= 2,
    ensures
        c.covers(fewer),
{
}

/// A step of restoring stays in the heap, and either blackens an object or
/// shortens the stack.
pub proof fn scan_black_step_progress(c: Snapshot, w: Walk)
    requires
        c.wf(),
        c.holds(w.stack),
        c.covers(w.s.color),
        w.stack.len() > 0,
    ensures
        c.holds(scan_black_step(c, w).stack),
        c.covers(scan_black_step(c, w).s.color),
        forall|g: usize| #[trigger] scan_black_step(c, w).s.color[g] >= 2 ==> w.s.color[g]
            == scan_black_step(c, w).s.color[g],
        scan_black_step(c, w).s.color[w.stack.last().granule()] <= 1,
        count_all(c.heap, not_black(scan_black_step(c, w).s)) <= count_all(
            c.heap,
            not_black(w.s),
        ),
        !w.s.is_black(w.stack.last()) ==> count_all(c.heap, not_black(scan_black_step(c, w).s))
            < count_all(c.heap, not_black(w.s)),
        w.s.is_black(w.stack.last()) ==> scan_black_step(c, w).stack.len() < w.stack.len(),
{
    let o = w.stack.last();
    let v = scan_black_step(c, w);
    let n = c.heap.objects@.len();
    pop_in_heap(c, w.stack);
    if w.s.is_black(o) {
        assert forall|h: usize| #[trigger] not_black(v.s)(h) implies not_black(w.s)(h) by {}
        count_objects_monotone(c.heap, not_black(w.s), not_black(v.s), n);
    } else {
        let t = w.s.paint(o, BLACK_IN_STACK).with_strong(
            o,
            restored_strong(w.s.counts.rc[o.granule()]),
        );
        let xs = satb_refs(c, c.heap.slots(o));
        restore_frame(t, xs);
        old_children_in_heap(c, w.s.color, o);
        not_in_stack_in_heap(c, t.color, xs);
        concat_in_heap(c, w.stack, not_in_stack(t.color, xs));
        assert forall|h: usize| #[trigger] not_black(v.s)(h) implies not_black(w.s)(h) by {}
        count_objects_drop(c.heap, not_black(w.s), not_black(v.s), n, c.heap.place(o));
    }
    covers_fewer(c, w.s.color, v.s.color);
}

/// Restoring, to its end.
pub open spec fn scan_black_all(c: Snapshot, w: Walk) -> Walk
    decreases count_all(c.heap, not_black(w.s)), w.stack.len(),
    when c.wf() && c.holds(w.stack) && c.covers(w.s.color)
    via scan_black_all_decreases
{
    if w.stack.len() == 0 {
        w
    } else {
        scan_black_all(c, scan_black_step(c, w))
    }
}

#[via_fn]
proof fn scan_black_all_decreases(c: Snapshot, w: Walk) {
    if w.stack.len() > 0 {
        scan_black_step_progress(c, w);
    }
}

/// Restoring blackens everything that it visits, and changes no colour but to
/// black.
pub proof fn scan_black_all_blackens(c: Snapshot, w: Walk)
    requires
        c.wf(),
        c.holds(w.stack),
        c.covers(w.s.color),
    ensures
        scan_black_all(c, w).stack.len() == 0,
        scan_black_all(c, w).out == w.out,
        scan_black_all(c, w).nested == w.nested,
        forall|g: usize| #[trigger] scan_black_all(c, w).s.color[g] >= 2 ==> w.s.color[g]
            == scan_black_all(c, w).s.color[g],
        forall|i: int|
            0 <= i < w.stack.len() ==> scan_black_all(c, w).s.is_black(#[trigger] w.stack[i]),
        c.covers(scan_black_all(c, w).s.color),
    decreases count_all(c.heap, not_black(w.s)), w.stack.len(),
{
    if w.stack.len() > 0 {
        let v = scan_black_step(c, w);
        scan_black_step_progress(c, w);
        scan_black_all_blackens(c, v);
        let f = scan_black_all(c, w);
        assert forall|g: usize| #[trigger] f.s.color[g] >= 2 implies w.s.color[g]
            == f.s.color[g] by {
            assert(v.s.color[g] == f.s.color[g]);
        }
        assert forall|i: int| 0 <= i < w.stack.len() implies f.s.is_black(
            #[trigger] w.stack[i],
        ) by {
            if i == w.stack.len() - 1 {
                assert(v.s.color[w.stack[i].granule()] <= 1);
                assert(f.s.color[w.stack[i].granule()] >= 2 ==> v.s.color[w.stack[i].granule()]
                    == f.s.color[w.stack[i].granule()]);
            } else {
                assert(v.stack[i] == w.stack[i]);
            }
        }
    }
}

/// One step of the scan.
///
/// A grey object with a reference from outside is restored with all that it
/// refers to. One without turns white, and what it refers to is looked at next.
pub open spec fn scan_step(c: Snapshot, w: Walk) -> Walk {
    let o = w.stack.last();
    let rest = w.stack.drop_last();
    let visited = w.visited.wrapping_add(1);
    if w.s.color_of(o) == GREY {
        if w.s.counts.rc[o.granule()] > 1 {
            let b = scan_black_all(c, walk_from(w.s, o, w.nested, 0));
            Walk { s: b.s, stack: rest, visited, nested: b.visited, ..w }
        } else {
            Walk {
                s: w.s.paint(o, WHITE),
                stack: rest + satb_refs(c, c.heap.slots(o)),
                visited,
                ..w
            }
        }
    } else {
        Walk { stack: rest, visited, ..w }
    }
}

/// The granules that are grey.
pub open spec fn grey(s: CycleState) -> spec_fn(usize) -> bool {
    |g: usize| s.color[g] == GREY
}

/// A step of the scan stays in the heap, makes nothing grey, and either leaves
/// one grey object less or shortens the stack.
pub proof fn scan_step_progress(c: Snapshot, w: Walk)
    requires
        c.wf(),
        c.holds(w.stack),
        c.covers(w.s.color),
        w.stack.len() > 0,
    ensures
        c.holds(scan_step(c, w).stack),
        c.covers(scan_step(c, w).s.color),
        forall|g: usize| #[trigger] scan_step(c, w).s.color[g] >= 2 ==> w.s.color[g] >= 2,
        forall|g: usize| #[trigger] scan_step(c, w).s.color[g] == 2 ==> w.s.color[g] == 2,
        scan_step(c, w).s.color_of(w.stack.last()) != GREY,
        count_all(c.heap, grey(scan_step(c, w).s)) <= count_all(c.heap, grey(w.s)),
        w.s.color_of(w.stack.last()) == GREY ==> count_all(c.heap, grey(scan_step(c, w).s))
            < count_all(c.heap, grey(w.s)),
        w.s.color_of(w.stack.last()) != GREY ==> scan_step(c, w).stack.len() < w.stack.len(),
{
    let o = w.stack.last();
    let v = scan_step(c, w);
    let n = c.heap.objects@.len();
    pop_in_heap(c, w.stack);
    if w.s.color_of(o) == GREY {
        if w.s.counts.rc[o.granule()] > 1 {
            let start = walk_from(w.s, o, w.nested, 0);
            assert(c.holds(start.stack));
            scan_black_all_blackens(c, start);
            assert(start.stack[0] == o);
        } else {
            old_children_in_heap(c, w.s.color, o);
            concat_in_heap(c, w.stack.drop_last(), satb_refs(c, c.heap.slots(o)));
        }
        assert forall|h: usize| #[trigger] grey(v.s)(h) implies grey(w.s)(h) by {
            assert(v.s.color[h] == 2);
        }
        count_objects_drop(c.heap, grey(w.s), grey(v.s), n, c.heap.place(o));
    } else {
        count_objects_monotone(c.heap, grey(w.s), grey(v.s), n);
    }
    covers_fewer(c, w.s.color, v.s.color);
}

/// The scan, to its end.
pub open spec fn scan_all(c: Snapshot, w: Walk) -> Walk
    decreases count_all(c.heap, grey(w.s)), w.stack.len(),
    when c.wf() && c.holds(w.stack) && c.covers(w.s.color)
    via scan_all_decreases
{
    if w.stack.len() == 0 {
        w
    } else {
        scan_all(c, scan_step(c, w))
    }
}

#[via_fn]
proof fn scan_all_decreases(c: Snapshot, w: Walk) {
    if w.stack.len() > 0 {
        scan_step_progress(c, w);
    }
}

/// The state after the dead object `o` was accounted for: its straddled lines
/// are cleared, its first word is overwritten, and its block is noted or its
/// pages are freed.
pub open spec fn bury(heap: Heap, s: CycleState, o: ObjectReference) -> CycleState {
    let info = heap.info(o);
    let dead = s.dead.with(info.size, !info.in_immix_space);
    let dead_cycles = s.dead_cycles.insert(o.granule(), 0);
    let overwritten = s.overwritten.push(o);
    if info.in_immix_space {
        let t = if info.size > 256 {
            CycleState {
                straddle: rc::fill_lines(s.straddle, o.addr, info.size, 0),
                counts: Counts {
                    rc: rc::fill_line_granules(s.counts.rc, o.addr, info.size, 0),
                    ..s.counts
                },
                ..s
            }
        } else {
            s
        };
        CycleState {
            dead_blocks: t.dead_blocks.push(address::block_start_of(o.addr)),
            dead,
            dead_cycles,
            overwritten,
            ..t
        }
    } else {
        CycleState {
            freed_large: s.freed_large.push(o),
            dead,
            dead_cycles,
            overwritten,
            ..s
        }
    }
}

/// The state after `o` was reclaimed: it is no candidate, it is black, it is
/// accounted for, and its last count is gone.
pub open spec fn reclaim(heap: Heap, s: CycleState, o: ObjectReference) -> CycleState {
    let t = CycleState { freed: s.freed.push(o.addr), ..s };
    bury(heap, t.tagged(o, 0).paint(o, BLACK_OUT_OF_STACK), o).table_dec(o)
}

/// A traversal after the references to `xs` were dropped. An object that loses
/// its last one is visited next; one that loses its last strong one becomes a
/// candidate.
pub open spec fn drop_refs(w: Walk, xs: Seq<ObjectReference>, tag: u8) -> Walk
    decreases xs.len(),
{
    if xs.len() == 0 {
        w
    } else {
        let v = drop_refs(w, xs.drop_last(), tag);
        let x = xs.last();
        let t = v.s.dec(x).strong_dec(x);
        if v.s.counts.count(x.granule()) == 2 {
            Walk { s: t, stack: v.stack.push(x), ..v }
        } else if v.s.strong[x.granule()] == 1 {
            Walk { s: t.tagged(x, tag), out: v.out.push(x), ..v }
        } else {
            Walk { s: t, ..v }
        }
    }
}

/// One step of reclaiming a live object that lost its last reference.
pub open spec fn collect_blacks_step(c: Snapshot, w: Walk) -> Walk {
    let o = w.stack.last();
    let v = drop_refs(
        Walk { stack: w.stack.drop_last(), visited: w.visited.wrapping_add(1), ..w },
        refs(c.heap, c.heap.slots(o)),
        c.tag,
    );
    Walk { s: reclaim(c.heap, v.s, o), ..v }
}

/// The granules whose object has a reference left.
pub open spec fn referenced(s: CycleState) -> spec_fn(usize) -> bool {
    |g: usize| s.counts.rc[g] >= 2
}

/// What the slots of an object hold is in the heap.
pub proof fn children_in_heap(c: Snapshot, o: ObjectReference)
    requires
        c.heap.wf(),
        c.heap.contains(o),
    ensures
        c.holds(refs(c.heap, c.heap.slots(o))),
{
    assert forall|j: int| 0 <= j < c.heap.slots(o).len() implies c.heap.fields@.dom().contains(
        #[trigger] c.heap.slots(o)[j],
    ) by {
        assert(c.heap.objects@[c.heap.place(o)].slots@[j] == c.heap.slots(o)[j]);
    }
    refs_in_heap(c, c.heap.slots(o));
}

/// Dropping references visits an object only where one less has a reference
/// left, and changes no colour.
pub proof fn drop_refs_progress(c: Snapshot, w: Walk, xs: Seq<ObjectReference>)
    requires
        c.wf(),
        c.holds(w.stack),
        c.holds(xs),
    ensures
        c.holds(drop_refs(w, xs, c.tag).stack),
        drop_refs(w, xs, c.tag).stack.len() >= w.stack.len(),
        drop_refs(w, xs, c.tag).s.color == w.s.color,
        drop_refs(w, xs, c.tag).s.straddle == w.s.straddle,
        drop_refs(w, xs, c.tag).visited == w.visited,
        drop_refs(w, xs, c.tag).nested == w.nested,
        count_all(c.heap, referenced(drop_refs(w, xs, c.tag).s)) + drop_refs(
            w,
            xs,
            c.tag,
        ).stack.len() <= count_all(c.heap, referenced(w.s)) + w.stack.len(),
    decreases xs.len(),
{
    if xs.len() > 0 {
        pop_in_heap(c, xs);
        drop_refs_progress(c, w, xs.drop_last());
        let v = drop_refs(w, xs.drop_last(), c.tag);
        let f = drop_refs(w, xs, c.tag);
        let x = xs.last();
        let n = c.heap.objects@.len();
        assert forall|h: usize| #[trigger] referenced(f.s)(h) implies referenced(v.s)(h) by {}
        if v.s.counts.count(x.granule()) == 2 {
            count_objects_drop(c.heap, referenced(v.s), referenced(f.s), n, c.heap.place(x));
            assert forall|i: int| 0 <= i < f.stack.len() implies c.heap.contains(
                #[trigger] f.stack[i],
            ) by {
                if i < v.stack.len() {
                    assert(f.stack[i] == v.stack[i]);
                }
            }
        } else {
            count_objects_monotone(c.heap, referenced(v.s), referenced(f.s), n);
        }
    }
}

/// Reclaiming raises no count and paints only black.
pub proof fn reclaim_frame(heap: Heap, s: CycleState, o: ObjectReference)
    ensures
        forall|g: usize| #[trigger] reclaim(heap, s, o).counts.rc[g] <= s.counts.rc[g],
        reclaim(heap, s, o).color == s.color.insert(o.granule(), BLACK_OUT_OF_STACK),
        reclaim(heap, s, o).strong == s.strong,
{
}

/// A step of reclaiming stays in the heap, and either leaves one less object
/// that has a reference, or shortens the stack.
pub proof fn collect_blacks_step_progress(c: Snapshot, w: Walk)
    requires
        c.wf(),
        c.holds(w.stack),
        w.stack.len() > 0,
    ensures
        c.holds(collect_blacks_step(c, w).stack),
        collect_blacks_step(c, w).visited == w.visited.wrapping_add(1),
        collect_blacks_step(c, w).nested == w.nested,
        collect_blacks_step(c, w).s.color == w.s.color.insert(
            w.stack.last().granule(),
            BLACK_OUT_OF_STACK,
        ),
        count_all(c.heap, referenced(collect_blacks_step(c, w).s)) <= count_all(
            c.heap,
            referenced(w.s),
        ),
        count_all(c.heap, referenced(collect_blacks_step(c, w).s)) < count_all(
            c.heap,
            referenced(w.s),
        ) || collect_blacks_step(c, w).stack.len() < w.stack.len(),
{
    let o = w.stack.last();
    pop_in_heap(c, w.stack);
    children_in_heap(c, o);
    let u = Walk { stack: w.stack.drop_last(), visited: w.visited.wrapping_add(1), ..w };
    let xs = refs(c.heap, c.heap.slots(o));
    drop_refs_progress(c, u, xs);
    let v = drop_refs(u, xs, c.tag);
    let f = collect_blacks_step(c, w);
    reclaim_frame(c.heap, v.s, o);
    assert forall|h: usize| #[trigger] referenced(f.s)(h) implies referenced(v.s)(h) by {
        assert(f.s.counts.rc[h] <= v.s.counts.rc[h]);
    }
    count_objects_monotone(c.heap, referenced(v.s), referenced(f.s), c.heap.objects@.len());
}

/// Reclaiming a live object and what dies with it, to its end.
pub open spec fn collect_blacks_all(c: Snapshot, w: Walk) -> Walk
    decreases count_all(c.heap, referenced(w.s)), w.stack.len(),
    when c.wf() && c.holds(w.stack)
    via collect_blacks_all_decreases
{
    if w.stack.len() == 0 {
        w
    } else {
        collect_blacks_all(c, collect_blacks_step(c, w))
    }
}

#[via_fn]
proof fn collect_blacks_all_decreases(c: Snapshot, w: Walk) {
    if w.stack.len() > 0 {
        collect_blacks_step_progress(c, w);
    }
}

/// Reclaiming live objects paints only black.
pub proof fn collect_blacks_all_colors(c: Snapshot, w: Walk)
    requires
        c.wf(),
        c.holds(w.stack),
    ensures
        collect_blacks_all(c, w).stack.len() == 0,
        forall|g: usize| #[trigger] collect_blacks_all(c, w).s.color[g] != 0 ==> w.s.color[g]
            == collect_blacks_all(c, w).s.color[g],
    decreases count_all(c.heap, referenced(w.s)), w.stack.len(),
{
    if w.stack.len() > 0 {
        collect_blacks_step_progress(c, w);
        let v = collect_blacks_step(c, w);
        collect_blacks_all_colors(c, v);
        let f = collect_blacks_all(c, w);
        assert forall|g: usize| #[trigger] f.s.color[g] != 0 implies w.s.color[g]
            == f.s.color[g] by {
            assert(v.s.color[g] == f.s.color[g]);
        }
    }
}

/// One step of the collection.
///
/// A white object is reclaimed, and what it refers to is looked at next. A live
/// object that was left for later and has lost its last reference is reclaimed
/// too, with what dies with it.
pub open spec fn collect_whites_step(c: Snapshot, w: Walk) -> Walk {
    let o = w.stack.last();
    let rest = w.stack.drop_last();
    let visited = w.visited.wrapping_add(1);
    if w.s.color_of(o) == WHITE {
        Walk {
            s: reclaim(c.heap, w.s, o),
            stack: rest + refs(c.heap, c.heap.slots(o)),
            visited,
            ..w
        }
    } else if w.s.color_of(o) == BLACK_IN_STACK && w.s.counts.rc[o.granule()] == 1 {
        let b = collect_blacks_all(c, walk_from(w.s, o, visited, 0));
        Walk { s: b.s, stack: rest, out: w.out + b.out, visited: b.visited, ..w }
    } else {
        Walk { stack: rest, visited, ..w }
    }
}

/// The granules that are white.
pub open spec fn white(s: CycleState) -> spec_fn(usize) -> bool {
    |g: usize| s.color[g] == WHITE
}

/// A step of the collection stays in the heap, makes nothing white, and either
/// leaves one white object less or shortens the stack.
pub proof fn collect_whites_step_progress(c: Snapshot, w: Walk)
    requires
        c.wf(),
        c.holds(w.stack),
        w.stack.len() > 0,
    ensures
        c.holds(collect_whites_step(c, w).stack),
        forall|g: usize| #[trigger] collect_whites_step(c, w).s.color[g] != 0 ==> w.s.color[g]
            == collect_whites_step(c, w).s.color[g],
        collect_whites_step(c, w).s.color_of(w.stack.last()) != WHITE,
        count_all(c.heap, white(collect_whites_step(c, w).s)) <= count_all(c.heap, white(w.s)),
        w.s.color_of(w.stack.last()) == WHITE ==> count_all(
            c.heap,
            white(collect_whites_step(c, w).s),
        ) < count_all(c.heap, white(w.s)),
        w.s.color_of(w.stack.last()) != WHITE ==> collect_whites_step(c, w).stack.len()
            < w.stack.len(),
{
    let o = w.stack.last();
    let v = collect_whites_step(c, w);
    let n = c.heap.objects@.len();
    pop_in_heap(c, w.stack);
    if w.s.color_of(o) == WHITE {
        reclaim_frame(c.heap, w.s, o);
        children_in_heap(c, o);
        concat_in_heap(c, w.stack.drop_last(), refs(c.heap, c.heap.slots(o)));
        assert forall|h: usize| #[trigger] white(v.s)(h) implies white(w.s)(h) by {}
        count_objects_drop(c.heap, white(w.s), white(v.s), n, c.heap.place(o));
    } else {
        if w.s.color_of(o) == BLACK_IN_STACK && w.s.counts.rc[o.granule()] == 1 {
            let start = walk_from(w.s, o, w.visited.wrapping_add(1), 0);
            assert(c.holds(start.stack));
            collect_blacks_all_colors(c, start);
        }
        assert forall|h: usize| #[trigger] white(v.s)(h) implies white(w.s)(h) by {
            assert(v.s.color[h] != 0);
        }
        count_objects_monotone(c.heap, white(w.s), white(v.s), n);
    }
}

/// The collection, to its end.
pub open spec fn collect_whites_all(c: Snapshot, w: Walk) -> Walk
    decreases count_all(c.heap, white(w.s)), w.stack.len(),
    when c.wf() && c.holds(w.stack)
    via collect_whites_all_decreases
{
    if w.stack.len() == 0 {
        w
    } else {
        collect_whites_all(c, collect_whites_step(c, w))
    }
}

#[via_fn]
proof fn collect_whites_all_decreases(c: Snapshot, w: Walk) {
    if w.stack.len() > 0 {
        collect_whites_step_progress(c, w);
    }
}

} // verus!
