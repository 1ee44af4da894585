//! What single steps of a cycle collection do to the tables.

use crate::plan::lxr::buffer;
use crate::plan::lxr::cycle_model;
use crate::plan::lxr::cycle_model::{CycleState, Snapshot, Walk};
use crate::plan::lxr::cycle_phases;
use crate::plan::lxr::cycle_phases::BufferWalk;
use crate::plan::lxr::dead_laws;
use crate::util::address::ObjectReference;
use crate::util::rc_laws;
use crate::vm::heap::Heap;
use vstd::prelude::*;

verus! {

/// The granule of an object.
pub open spec fn granule(o: ObjectReference) -> usize {
    (o.addr / 16) as usize
}

/// Whether table `new` is table `old` but for entry `g`, which holds `v`.
pub open spec fn entry_set(old: Map<usize, u8>, new: Map<usize, u8>, g: usize, v: int) -> bool {
    forall|h: usize| #[trigger]
        new[h] == (if h == g {
            v
        } else {
            old[h] as int
        })
}

/// Colouring, tagging and setting a strong count write to one entry of one table.
pub proof fn one_entry_is_written(s: CycleState, o: ObjectReference, v: u8)
    ensures
        entry_set(s.color, s.paint(o, v).color, granule(o), v as int),
        s.paint(o, v) == (CycleState { color: s.paint(o, v).color, ..s }),
        entry_set(s.cand, s.tagged(o, v).cand, granule(o), v as int),
        s.tagged(o, v) == (CycleState { cand: s.tagged(o, v).cand, ..s }),
        entry_set(s.strong, s.with_strong(o, v).strong, granule(o), v as int),
        s.with_strong(o, v) == (CycleState { strong: s.with_strong(o, v).strong, ..s }),
        s.color_of(o) == s.color[granule(o)],
        s.is_black(o) <==> s.color[granule(o)] == 0 || s.color[granule(o)] == 1,
        s.is_held(o) <==> s.strong[granule(o)] != 0 || s.cand[granule(o)] != 0,
{
}

/// A strong count is raised by one up to fifteen, and lowered by one down to zero.
pub proof fn strong_count_is_stepped(s: CycleState, o: ObjectReference)
    requires
        s.strong[granule(o)] <= 15,
    ensures
        ({
            let n = s.strong[granule(o)];
            &&& entry_set(s.strong, s.strong_inc(o).strong, granule(o), if n < 15 {
                n + 1
            } else {
                15
            })
            &&& s.strong_inc(o) == (CycleState { strong: s.strong_inc(o).strong, ..s })
            &&& entry_set(s.strong, s.strong_dec(o).strong, granule(o), if n > 0 {
                n - 1
            } else {
                0
            })
            &&& s.strong_dec(o) == (CycleState { strong: s.strong_dec(o).strong, ..s })
        }),
{
}

/// A count is raised or lowered in the table; beyond 255 in the excess. An excess at
/// its end begins again at zero. The number of objects with an excess goes along.
pub proof fn count_is_stepped(s: CycleState, o: ObjectReference)
    ensures
        ({
            let g = granule(o);
            let (n, e) = (s.counts.rc[g], s.counts.excess[g]);
            let (i, d) = (s.inc(o), s.dec(o));
            &&& entry_set(s.counts.rc, i.counts.rc, g, if n < 255 {
                n + 1
            } else {
                255
            })
            &&& entry_set(s.counts.rc, d.counts.rc, g, if n == 0 || n == 255 && e > 0 {
                n as int
            } else {
                n - 1
            })
            &&& forall|h: usize| #[trigger]
                i.counts.excess[h] == (if h != g || n < 255 {
                    s.counts.excess[h] as int
                } else if e < u32::MAX {
                    e + 1
                } else {
                    0
                })
            &&& forall|h: usize| #[trigger]
                d.counts.excess[h] == (if h == g && n == 255 && e > 0 {
                    e - 1
                } else {
                    s.counts.excess[h] as int
                })
            &&& n == 255 && e == 0 ==> dead_laws::went_up(s.overflowed, i.overflowed, 1)
            &&& !(n == 255 && e == 0) ==> i.overflowed == s.overflowed
            &&& n == 255 && e == 1 ==> dead_laws::went_up(d.overflowed, s.overflowed, 1)
            &&& !(n == 255 && e == 1) ==> d.overflowed == s.overflowed
            &&& i == (CycleState { counts: i.counts, overflowed: i.overflowed, ..s })
            &&& d == (CycleState { counts: d.counts, overflowed: d.overflowed, ..s })
        }),
{
    dead_laws::wrapping_goes_up(s.overflowed, 1);
    dead_laws::wrapping_goes_up(s.dec(o).overflowed, 1);
}

/// The last step of a count takes one from the table alone, and leaves a count of
/// zero and a saturated one.
pub proof fn last_count_is_taken(s: CycleState, o: ObjectReference)
    ensures
        ({
            let g = granule(o);
            let n = s.counts.rc[g];
            let t = s.table_dec(o);
            &&& entry_set(s.counts.rc, t.counts.rc, g, if n == 0 || n == 255 {
                n as int
            } else {
                n - 1
            })
            &&& t.counts.excess == s.counts.excess
            &&& t == (CycleState { counts: t.counts, ..s })
        }),
{
}

/// References are taken away one by one: the count and the strong count of each go
/// down by one.
pub proof fn reference_is_taken_away(
    s: CycleState,
    xs: Seq<ObjectReference>,
    x: ObjectReference,
)
    ensures
        cycle_model::take_away(s, Seq::empty()) == s,
        cycle_model::take_away(s, xs.push(x)) == cycle_model::take_away(s, xs).dec(x).strong_dec(x),
{
    assert(xs.push(x).drop_last() =~= xs);
}

/// References are given back one by one, the last one first: the count goes up by
/// one, the object becomes a candidate, and if it is not black its strong count goes
/// down by one.
pub proof fn reference_is_given_back(
    s: CycleState,
    xs: Seq<ObjectReference>,
    x: ObjectReference,
    tag: u8,
)
    ensures
        cycle_model::give_back(s, Seq::empty(), tag) == s,
        s.color[granule(x)] <= 1 ==> cycle_model::give_back(s, xs.push(x), tag)
            == cycle_model::give_back(s.inc(x).tagged(x, tag), xs, tag),
        s.color[granule(x)] > 1 ==> cycle_model::give_back(s, xs.push(x), tag)
            == cycle_model::give_back(s.inc(x).tagged(x, tag).strong_dec(x), xs, tag),
{
    assert(xs.push(x).drop_last() =~= xs);
}

/// References are restored one by one: the count goes up by one, and the strong
/// count too unless the object is on the stack.
pub proof fn reference_is_restored(s: CycleState, xs: Seq<ObjectReference>, x: ObjectReference)
    ensures
        cycle_model::restore(s, Seq::empty()) == s,
        ({
            let t = cycle_model::restore(s, xs);
            &&& t.color[granule(x)] == 1 ==> cycle_model::restore(s, xs.push(x)) == t.inc(x)
            &&& t.color[granule(x)] != 1 ==> cycle_model::restore(s, xs.push(x)) == t.inc(
                x,
            ).strong_inc(x)
        }),
{
    assert(xs.push(x).drop_last() =~= xs);
}

/// References are dropped one by one: the count and the strong count go down by one.
/// An object whose count was two goes on the stack; one that had one strong
/// reference left, and more than one other, becomes a candidate.
pub proof fn reference_is_dropped(
    w: Walk,
    xs: Seq<ObjectReference>,
    x: ObjectReference,
    tag: u8,
)
    ensures
        cycle_model::drop_refs(w, Seq::empty(), tag) == w,
        ({
            let v = cycle_model::drop_refs(w, xs, tag);
            let f = cycle_model::drop_refs(w, xs.push(x), tag);
            let t = v.s.dec(x).strong_dec(x);
            let g = granule(x);
            let two = v.s.counts.rc[g] == 2;
            let weakened = !two && v.s.strong[g] == 1;
            &&& f.s == (if weakened {
                t.tagged(x, tag)
            } else {
                t
            })
            &&& f.stack == (if two {
                v.stack.push(x)
            } else {
                v.stack
            })
            &&& f.out == (if weakened {
                v.out.push(x)
            } else {
                v.out
            })
            &&& f.visited == v.visited
            &&& f.nested == v.nested
        }),
{
    assert(xs.push(x).drop_last() =~= xs);
}

/// An object has a logged slot exactly if the bit of one of its slots is zero, and
/// its slots before the first such are those that are unlogged without a gap.
pub proof fn logged_slot_is_found(c: Snapshot, o: ObjectReference)
    ensures
        ({
            let slots = c.heap.info(o).slots@;
            let u = c.unlogged_slots(o);
            &&& c.has_logged_slot(o) <==> exists|i: int|
                #![trigger slots[i]]
                0 <= i < slots.len() && c.unlog[slots[i]] == 0
            &&& u.len() <= slots.len()
            &&& u == slots.take(u.len() as int)
            &&& forall|i: int| #![trigger slots[i]] 0 <= i < u.len() ==> c.unlog[slots[i]] != 0
            &&& u.len() < slots.len() ==> c.unlog[slots[u.len() as int]] == 0
        }),
{
    let slots = c.heap.info(o).slots@;
    first_logged_is_first(c.unlog, slots, 0);
    let n = cycle_model::first_logged(c.unlog, slots, 0);
    assert(c.unlogged_slots(o) =~= slots.take(n));
}

/// The first logged slot.
proof fn first_logged_is_first(unlog: Map<usize, u8>, slots: Seq<usize>, i: int)
    requires
        0 <= i <= slots.len(),
    ensures
        ({
            let n = cycle_model::first_logged(unlog, slots, i);
            &&& i <= n <= slots.len()
            &&& forall|j: int| #![trigger slots[j]] i <= j < n ==> unlog[slots[j]] != 0
            &&& n < slots.len() ==> unlog[slots[n]] == 0
        }),
    decreases slots.len() - i,
{
    if i < slots.len() && unlog[slots[i]] != 0 {
        first_logged_is_first(unlog, slots, i + 1);
    }
}

/// What a slot held: what it holds, or what was recorded if it is logged.
pub proof fn old_value_is_held_or_recorded(c: Snapshot, slot: usize)
    ensures
        c.unlog[slot] == 1 ==> c.old_value(slot) == c.heap.fields@[slot],
        c.unlog[slot] != 1 ==> c.old_value(slot) == c.satb[slot],
{
}

/// A traversal begins with one object, and nothing found.
pub proof fn walk_begins_at_object(s: CycleState, o: ObjectReference, n: usize, m: usize)
    ensures
        cycle_model::walk_from(s, o, n, m).s == s,
        cycle_model::walk_from(s, o, n, m).stack == seq![o],
        cycle_model::walk_from(s, o, n, m).out.len() == 0,
        cycle_model::walk_from(s, o, n, m).visited == n,
        cycle_model::walk_from(s, o, n, m).nested == m,
        cycle_phases::carry(s, n, m).s == s,
        cycle_phases::carry(s, n, m).stack.len() == 0,
        cycle_phases::carry(s, n, m).out.len() == 0,
        cycle_phases::carry(s, n, m).visited == n,
        cycle_phases::carry(s, n, m).nested == m,
{
}

/// One step of trial deletion takes the last object from the stack.
///
/// Only a black object without strong references and without a tag is gone into: it
/// is counted, turns grey and loses the references from its slots, which are looked
/// at next. If one of its slots is logged, what it lost is given back, and it and
/// what it referred to become candidates instead. Another black object is coloured
/// as deferred, and one of any other colour is left.
pub proof fn trial_deletion_step(c: Snapshot, w: Walk)
    requires
        w.stack.len() > 0,
    ensures
        ({
            let o = w.stack.last();
            let g = granule(o);
            let v = cycle_model::mark_step(c, w);
            let rest = w.stack.drop_last();
            let goes_in = w.s.color[g] <= 1 && w.s.strong[g] == 0 && w.s.cand[g] == 0;
            let xs = cycle_model::refs(c.heap, c.unlogged_slots(o));
            let t = cycle_model::take_away(w.s.paint(o, 2), xs);
            &&& cycle_model::markable(w.s, o) <==> goes_in
            &&& goes_in && !c.has_logged_slot(o) ==> v.s == t && v.stack == rest + xs && v.out
                == w.out
            &&& goes_in && c.has_logged_slot(o) ==> v.s == cycle_model::give_back(
                t.paint(o, 1),
                xs,
                c.tag,
            ).tagged(o, c.tag) && v.stack == rest && v.out == w.out + xs.reverse() + seq![o]
            &&& goes_in ==> dead_laws::went_up(w.visited, v.visited, 1)
            &&& !goes_in ==> v.visited == w.visited && v.stack == rest && v.out == w.out
            &&& !goes_in && w.s.color[g] <= 1 ==> v.s == w.s.paint(o, 1)
            &&& !goes_in && w.s.color[g] > 1 ==> v.s == w.s
            &&& v.nested == w.nested
        }),
{
    dead_laws::wrapping_goes_up(w.visited, 1);
}

/// The strong count that an object gets back is its references but one, as far as
/// fifteen; an object without references gets fifteen.
pub proof fn strong_count_is_given_back(n: u8)
    ensures
        n == 0 ==> cycle_model::restored_strong(n) == 15,
        1 <= n <= 16 ==> cycle_model::restored_strong(n) == n - 1,
        n > 16 ==> cycle_model::restored_strong(n) == 15,
{
}

/// One step of restoring looks at the last object of the stack.
///
/// A black one leaves the stack and is done with. Any other is counted, stays and is
/// coloured as deferred, gets its strong count back, and what it referred to gets
/// its references back; those of it that are not on the stack are looked at next.
pub proof fn restoring_step(c: Snapshot, w: Walk)
    requires
        w.stack.len() > 0,
    ensures
        ({
            let o = w.stack.last();
            let g = granule(o);
            let v = cycle_model::scan_black_step(c, w);
            let xs = cycle_model::satb_refs(c, c.heap.info(o).slots@);
            let t = w.s.paint(o, 1).with_strong(o, cycle_model::restored_strong(w.s.counts.rc[g]));
            &&& w.s.color[g] <= 1 ==> v.s == w.s.paint(o, 0) && v.stack == w.stack.drop_last()
                && v.visited == w.visited
            &&& w.s.color[g] > 1 ==> v.s == cycle_model::restore(t, xs) && v.stack == w.stack
                + xs.filter(|x: ObjectReference| t.color[granule(x)] != 1) && dead_laws::went_up(
                w.visited,
                v.visited,
                1,
            )
            &&& v.out == w.out
            &&& v.nested == w.nested
        }),
{
    dead_laws::wrapping_goes_up(w.visited, 1);
    let o = w.stack.last();
    let xs = cycle_model::satb_refs(c, c.heap.info(o).slots@);
    let t = w.s.paint(o, 1).with_strong(
        o,
        cycle_model::restored_strong(w.s.counts.rc[granule(o)]),
    );
    objects_off_the_stack(t.color, xs);
}

/// Those of the objects that are not coloured as deferred, in order.
pub proof fn objects_off_the_stack(color: Map<usize, u8>, xs: Seq<ObjectReference>)
    ensures
        cycle_model::not_in_stack(color, xs) == xs.filter(
            |x: ObjectReference| color[granule(x)] != 1,
        ),
    decreases xs.len(),
{
    reveal(Seq::filter);
    if xs.len() > 0 {
        objects_off_the_stack(color, xs.drop_last());
    }
}

/// One step of the scan takes the last object from the stack and counts it.
///
/// A grey one with more references than the one that keeps it counted is restored
/// with all that it refers to. A grey one without turns white, and what it referred
/// to is looked at next. Any other is left.
pub proof fn scan_step_of(c: Snapshot, w: Walk)
    requires
        w.stack.len() > 0,
    ensures
        ({
            let o = w.stack.last();
            let g = granule(o);
            let v = cycle_model::scan_step(c, w);
            let rest = w.stack.drop_last();
            let is_grey = w.s.color[g] == 2;
            let b = cycle_model::scan_black_all(c, cycle_model::walk_from(w.s, o, w.nested, 0));
            &&& is_grey && w.s.counts.rc[g] > 1 ==> v.s == b.s && v.stack == rest && v.nested
                == b.visited
            &&& is_grey && w.s.counts.rc[g] <= 1 ==> v.s == w.s.paint(o, 3) && v.stack == rest
                + cycle_model::satb_refs(c, c.heap.info(o).slots@) && v.nested == w.nested
            &&& !is_grey ==> v.s == w.s && v.stack == rest && v.nested == w.nested
            &&& dead_laws::went_up(w.visited, v.visited, 1)
            &&& v.out == w.out
        }),
{
    dead_laws::wrapping_goes_up(w.visited, 1);
}

/// Reclaiming an object: its references are dropped before it is accounted for, and
/// what they referred to follows if it has no reference left.
pub proof fn reclaiming_step(c: Snapshot, w: Walk)
    requires
        w.stack.len() > 0,
    ensures
        ({
            let o = w.stack.last();
            let v = cycle_model::collect_blacks_step(c, w);
            let start = Walk {
                stack: w.stack.drop_last(),
                visited: w.visited.wrapping_add(1),
                ..w
            };
            let d = cycle_model::drop_refs(
                start,
                cycle_model::refs(c.heap, c.heap.info(o).slots@),
                c.tag,
            );
            &&& v.s == cycle_model::reclaim(c.heap, d.s, o)
            &&& v.stack == d.stack
            &&& v.out == d.out
            &&& v.visited == d.visited
            &&& v.nested == d.nested
            &&& dead_laws::went_up(w.visited, start.visited, 1)
        }),
{
    dead_laws::wrapping_goes_up(w.visited, 1);
}

/// A reclaimed object has no tag, is black, and has one reference less; the counts
/// of the lines that it covers are gone with it.
pub proof fn reclaimed_object_is_clean(heap: Heap, s: CycleState, o: ObjectReference)
    ensures
        ({
            let f = cycle_model::reclaim(heap, s, o);
            let info = heap.info(o);
            let long = info.in_immix_space && info.size > 256;
            &&& entry_set(s.cand, f.cand, granule(o), 0)
            &&& entry_set(s.color, f.color, granule(o), 0)
            &&& f.strong == s.strong
            &&& f.overflowed == s.overflowed
            &&& f.counts.excess == s.counts.excess
            &&& f.counts.rc[granule(o)] == (if s.counts.rc[granule(o)] == 0
                || s.counts.rc[granule(o)] == 255 {
                s.counts.rc[granule(o)] as int
            } else {
                s.counts.rc[granule(o)] - 1
            })
            &&& !long ==> entry_set(
                s.counts.rc,
                f.counts.rc,
                granule(o),
                if s.counts.rc[granule(o)] == 0 || s.counts.rc[granule(o)] == 255 {
                    s.counts.rc[granule(o)] as int
                } else {
                    s.counts.rc[granule(o)] - 1
                },
            )
            &&& long ==> forall|g: usize|
                g != granule(o) ==> #[trigger] f.counts.rc[g] == (if g * 16 % 256 == 0
                    && rc_laws::inside_object(o.addr, info.size, g * 16 / 256) {
                    0
                } else {
                    s.counts.rc[g]
                })
        }),
{
    let info = heap.info(o);
    rc_laws::filled_lines_lie_inside(
        s.straddle,
        s.counts.rc,
        o.addr,
        info.size,
        0,
    );
}

/// One step of the collection takes the last object from the stack and counts it.
///
/// A white one is reclaimed, and what it refers to is looked at next. A deferred one
/// whose count is one is reclaimed with all that dies with it. Any other is left.
pub proof fn collection_step(c: Snapshot, w: Walk)
    requires
        w.stack.len() > 0,
    ensures
        ({
            let o = w.stack.last();
            let g = granule(o);
            let v = cycle_model::collect_whites_step(c, w);
            let rest = w.stack.drop_last();
            let counted = w.visited.wrapping_add(1);
            let b = cycle_model::collect_blacks_all(
                c,
                cycle_model::walk_from(w.s, o, counted, 0),
            );
            let is_white = w.s.color[g] == 3;
            let dies = w.s.color[g] == 1 && w.s.counts.rc[g] == 1;
            &&& is_white ==> v.s == cycle_model::reclaim(c.heap, w.s, o) && v.stack == rest
                + cycle_model::refs(c.heap, c.heap.info(o).slots@) && v.out == w.out && v.visited
                == counted
            &&& dies ==> v.s == b.s && v.stack == rest && v.out == w.out + b.out && v.visited
                == b.visited
            &&& !is_white && !dies ==> v.s == w.s && v.stack == rest && v.out == w.out
                && v.visited == counted
            &&& v.nested == w.nested
            &&& dead_laws::went_up(w.visited, counted, 1)
        }),
{
    dead_laws::wrapping_goes_up(w.visited, 1);
}

/// Traversals go on step by step until the stack is empty.
pub proof fn traversals_end_with_empty_stack(c: Snapshot, w: Walk)
    requires
        c.wf(),
        c.holds(w.stack),
    ensures
        w.stack.len() == 0 ==> cycle_model::mark_all(c, w) == w && cycle_model::collect_blacks_all(
            c,
            w,
        ) == w && cycle_model::collect_whites_all(c, w) == w,
        w.stack.len() > 0 ==> cycle_model::mark_all(c, w) == cycle_model::mark_all(
            c,
            cycle_model::mark_step(c, w),
        ),
        w.stack.len() > 0 ==> cycle_model::collect_blacks_all(c, w)
            == cycle_model::collect_blacks_all(c, cycle_model::collect_blacks_step(c, w)),
        w.stack.len() > 0 ==> cycle_model::collect_whites_all(c, w)
            == cycle_model::collect_whites_all(c, cycle_model::collect_whites_step(c, w)),
        c.covers(w.s.color) && w.stack.len() == 0 ==> cycle_model::scan_black_all(c, w) == w
            && cycle_model::scan_all(c, w) == w,
        c.covers(w.s.color) && w.stack.len() > 0 ==> cycle_model::scan_black_all(c, w)
            == cycle_model::scan_black_all(c, cycle_model::scan_black_step(c, w)),
        c.covers(w.s.color) && w.stack.len() > 0 ==> cycle_model::scan_all(c, w)
            == cycle_model::scan_all(c, cycle_model::scan_step(c, w)),
{
    if w.stack.len() > 0 {
        cycle_model::mark_step_progress(c, w);
        cycle_model::collect_blacks_step_progress(c, w);
        cycle_model::collect_whites_step_progress(c, w);
        if c.covers(w.s.color) {
            cycle_model::scan_black_step_progress(c, w);
            cycle_model::scan_step_progress(c, w);
        }
    }
}

/// One step of the mark phase looks at the next candidate.
///
/// One that still carries the tag and that nothing refers to strongly is no candidate
/// any more, and trial deletion begins at it. Any other leaves the buffers, and its
/// tag is gone if something refers to it strongly.
pub proof fn mark_phase_step(c: Snapshot, tag: u8, b: BufferWalk)
    ensures
        ({
            let at = buffer::seek(b.buffers, b.bi, b.ei);
            let o = b.buffers[at.0][at.1];
            let g = granule(o);
            let f = cycle_phases::mark_buffer_step(c, tag, b);
            let begins = b.s.cand[g] == tag && b.s.strong[g] == 0;
            let w = cycle_model::mark_all(
                c,
                cycle_model::walk_from(b.s.tagged(o, 0), o, b.visited, 0),
            );
            &&& cycle_phases::should_mark(b.s, o, tag) <==> begins
            &&& begins ==> f.s == w.s && f.buffers == b.buffers && f.bi == at.0 && f.ei == at.1
                + 1 && f.out == b.out + w.out && f.visited == w.visited
            &&& !begins ==> f.buffers == buffer::removed_at(b.buffers, at.0, at.1) && f.bi == at.0
                && f.ei == at.1 && f.out == b.out && f.visited == b.visited
            &&& !begins && b.s.strong[g] > 0 ==> f.s == b.s.tagged(o, 0)
            &&& !begins && b.s.strong[g] == 0 ==> f.s == b.s
        }),
{
}

/// The mark phase goes on from candidate to candidate until there is none left.
pub proof fn mark_phase_goes_on(c: Snapshot, tag: u8, b: BufferWalk)
    requires
        c.wf(),
        b.wf(),
        cycle_phases::all_in_heap(c, b.buffers),
    ensures
        ({
            let at = buffer::seek(b.buffers, b.bi, b.ei);
            &&& at.0 < b.buffers.len() ==> cycle_phases::mark_buffers(c, tag, b)
                == cycle_phases::mark_buffers(c, tag, cycle_phases::mark_buffer_step(c, tag, b))
            &&& at.0 >= b.buffers.len() ==> cycle_phases::mark_buffers(c, tag, b) == b
        }),
        b.wf() <==> 0 <= b.bi && 0 <= b.ei && (b.bi < b.buffers.len() ==> b.ei
            <= b.buffers[b.bi].len()),
{
    if buffer::seek(b.buffers, b.bi, b.ei).0 < b.buffers.len() {
        cycle_phases::mark_buffer_step_progress(c, tag, b);
    }
}

/// The mark phase begins at the first candidate, with nothing found.
pub proof fn mark_phase_begins(
    s: CycleState,
    buffers: Seq<Seq<ObjectReference>>,
    visited: usize,
)
    ensures
        ({
            let b = cycle_phases::buffers_from(s, buffers, visited);
            &&& b.s == s
            &&& b.buffers == buffers
            &&& b.bi == 0 && b.ei == 0
            &&& b.out.len() == 0
            &&& b.visited == visited
            &&& b.pending() == buffer::pending(buffers, 0, 0)
        }),
{
}

/// Candidates are scanned and collected one after the other.
pub proof fn candidates_are_visited_in_order(
    c: Snapshot,
    w: Walk,
    xs: Seq<ObjectReference>,
    x: ObjectReference,
)
    ensures
        cycle_phases::scan_each(c, w, Seq::empty()) == w,
        cycle_phases::collect_each(c, w, Seq::empty()) == w,
        ({
            let v = cycle_phases::scan_each(c, w, xs);
            let f = cycle_model::scan_all(
                c,
                cycle_model::walk_from(v.s, x, v.visited, v.nested),
            );
            let n = cycle_phases::scan_each(c, w, xs.push(x));
            &&& n.s == f.s && n.visited == f.visited && n.nested == f.nested
            &&& n.stack == v.stack && n.out == v.out
        }),
        ({
            let v = cycle_phases::collect_each(c, w, xs);
            let f = cycle_model::collect_whites_all(
                c,
                cycle_model::walk_from(v.s, x, v.visited, 0),
            );
            let n = cycle_phases::collect_each(c, w, xs.push(x));
            &&& n.s == f.s && n.visited == f.visited && n.out == v.out + f.out
            &&& n.stack == v.stack && n.nested == v.nested
        }),
{
    assert(xs.push(x).drop_last() =~= xs);
}

/// Whether everything is there that restoring needs: each slot that is logged, of an
/// object that is not black, is recorded, and what is recorded is in the heap.
pub proof fn snapshot_covers_logged_slots(c: Snapshot, color: Map<usize, u8>)
    requires
        c.heap.wf(),
    ensures
        c.covers(color) <==> {
            &&& forall|o: ObjectReference, j: int|
                #![trigger c.heap.info(o).slots@[j]]
                c.heap.contains(o) && 0 <= j < c.heap.info(o).slots@.len() && color[granule(o)] > 1
                    && c.unlog[c.heap.info(o).slots@[j]] != 1 ==> c.satb.dom().contains(
                    c.heap.info(o).slots@[j],
                )
            &&& forall|a: usize, x: ObjectReference|
                #![trigger c.heap.contains(x), c.satb[a]]
                c.satb.dom().contains(a) && c.satb[a] == Some(x) ==> c.heap.contains(x)
        },
        c.wf() <==> c.heap.wf() && (forall|a: usize| #![trigger c.unlog[a]] c.unlog[a] <= 1) && (
        c.tag == 1 || c.tag == 2 || c.tag == 3),
{
    if c.covers(color) {
        assert forall|o: ObjectReference, j: int|
            #![trigger c.heap.info(o).slots@[j]]
            c.heap.contains(o) && 0 <= j < c.heap.info(o).slots@.len() && color[granule(o)] > 1
                && c.unlog[c.heap.info(o).slots@[j]] != 1 implies c.satb.dom().contains(
            c.heap.info(o).slots@[j],
        ) by {
            let k = c.heap.place(o);
            assert(c.heap.objects@[k].slots@[j] == c.heap.info(o).slots@[j]);
        }
    }
    if forall|o: ObjectReference, j: int|
        #![trigger c.heap.info(o).slots@[j]]
        c.heap.contains(o) && 0 <= j < c.heap.info(o).slots@.len() && color[granule(o)] > 1
            && c.unlog[c.heap.info(o).slots@[j]] != 1 ==> c.satb.dom().contains(
            c.heap.info(o).slots@[j],
        ) {
        assert forall|k: int, j: int|
            #![trigger c.heap.objects@[k].slots@[j]]
            0 <= k < c.heap.objects@.len() && 0 <= j < c.heap.objects@[k].slots@.len()
                && color[c.heap.objects@[k].object.granule()] >= 2
                && c.unlog[c.heap.objects@[k].slots@[j]] != 1 implies c.satb.dom().contains(
            c.heap.objects@[k].slots@[j],
        ) by {
            let o = c.heap.objects@[k].object;
            assert(c.heap.index@[o.granule()] == k);
            assert(c.heap.info(o).slots@[j] == c.heap.objects@[k].slots@[j]);
        }
    }
}

} // verus!
