//! Cycle collection reclaims garbage only.

use crate::plan::lxr::cycle_grey;
use crate::plan::lxr::cycle_laws;
use crate::plan::lxr::cycle_model;
use crate::plan::lxr::cycle_model::{CycleState, Snapshot, Walk};
use crate::plan::lxr::cycle_phases;
use crate::plan::lxr::cycle_phases::BufferWalk;
use crate::plan::lxr::buffer;
use crate::plan::lxr::gc_work;
use crate::util::address::ObjectReference;
use crate::util::rc::{BLACK_IN_STACK, GREY, WHITE};
use crate::vm::heap::Heap;
use vstd::prelude::*;

verus! {

/// Whether `o` is neither black nor grey, so it is white.
pub open spec fn neither_black_nor_grey(s: CycleState, o: ObjectReference) -> bool {
    !s.is_black(o) && s.color_of(o) != GREY
}

/// Whether every granule is black or grey.
pub open spec fn nothing_white(color: Map<usize, u8>) -> bool {
    forall|g: usize| #[trigger] color[g] <= 2
}

/// Trial deletion turns nothing white.
proof fn mark_all_whitens_nothing(c: Snapshot, w: Walk)
    requires
        c.wf(),
        c.holds(w.stack),
        nothing_white(w.s.color),
    ensures
        nothing_white(cycle_model::mark_all(c, w).s.color),
    decreases
            cycle_model::count_all(c.heap, cycle_model::unmarked(w.s)),
            w.stack.len(),
{
    if w.stack.len() > 0 {
        let o = w.stack.last();
        cycle_model::mark_step_progress(c, w);
        if cycle_model::markable(w.s, o) {
            let xs = cycle_model::refs(c.heap, c.unlogged_slots(o));
            let s1 = w.s.paint(o, GREY);
            cycle_model::take_away_frame(s1, xs);
            if c.has_logged_slot(o) {
                cycle_model::give_back_frame(
                    cycle_model::take_away(s1, xs).paint(o, BLACK_IN_STACK),
                    xs,
                    c.tag,
                );
            }
        }
        mark_all_whitens_nothing(c, cycle_model::mark_step(c, w));
    }
}

/// What the mark phase keeps: the account, that objects that are not black have
/// no logged slot, and that nothing is white.
pub open spec fn marking_invariant(
    c: Snapshot,
    s: CycleState,
    base: spec_fn(usize) -> nat,
) -> bool {
    &&& cycle_laws::accounts(c.heap, s, base)
    &&& cycle_laws::in_range(c.heap, base)
    &&& cycle_laws::rest_unlogged(c, s.color)
    &&& nothing_white(s.color)
}

/// A candidate of the mark phase keeps what has to be kept.
pub proof fn mark_buffer_step_keeps_invariant(
    c: Snapshot,
    vec_index: u8,
    b: BufferWalk,
    base: spec_fn(usize) -> nat,
)
    requires
        c.wf(),
        b.wf(),
        cycle_phases::all_in_heap(c, b.buffers),
        marking_invariant(c, b.s, base),
        buffer::seek(b.buffers, b.bi, b.ei).0 < b.buffers.len(),
    ensures
        marking_invariant(c, cycle_phases::mark_buffer_step(c, vec_index, b).s, base),
{
    let (bi, ei) = buffer::seek(b.buffers, b.bi, b.ei);
    cycle_phases::mark_buffer_step_progress(c, vec_index, b);
    let o = b.buffers[bi][ei];
    let s1 = b.s.tagged(o, 0);
    assert(cycle_laws::accounts(c.heap, s1, base)) by {
        assert forall|g: usize| #[trigger] s1.counts.count(g) == base(g)
            + cycle_laws::black_refs(c.heap, s1.color, g) by {
            assert(b.s.counts.count(g) == base(g) + cycle_laws::black_refs(
                c.heap,
                b.s.color,
                g,
            ));
        }
    }
    if cycle_phases::should_mark(b.s, o, vec_index) {
        let w = cycle_model::walk_from(s1, o, b.visited, 0);
        assert(c.holds(w.stack));
        cycle_laws::mark_keeps_accounts(c, w, base);
        mark_all_whitens_nothing(c, w);
    }
}

/// The mark phase keeps what it has to keep.
pub proof fn mark_buffers_keeps_invariant(
    c: Snapshot,
    vec_index: u8,
    b: BufferWalk,
    base: spec_fn(usize) -> nat,
)
    requires
        c.wf(),
        b.wf(),
        cycle_phases::all_in_heap(c, b.buffers),
        marking_invariant(c, b.s, base),
    ensures
        marking_invariant(c, cycle_phases::mark_buffers(c, vec_index, b).s, base),
    decreases b.pending().len(),
{
    if buffer::seek(b.buffers, b.bi, b.ei).0 < b.buffers.len() {
        cycle_phases::mark_buffer_step_progress(c, vec_index, b);
        mark_buffer_step_keeps_invariant(c, vec_index, b, base);
        mark_buffers_keeps_invariant(
            c,
            vec_index,
            cycle_phases::mark_buffer_step(c, vec_index, b),
            base,
        );
    }
}

/// The scan phase keeps the account, and every white object has no count beyond
/// the bias.
pub proof fn scan_each_keeps_accounts(
    c: Snapshot,
    w: Walk,
    xs: Seq<ObjectReference>,
    base: spec_fn(usize) -> nat,
)
    requires
        c.wf(),
        c.holds(xs),
        c.covers(w.s.color),
        cycle_laws::accounts(c.heap, w.s, base),
        cycle_laws::in_range(c.heap, base),
        cycle_laws::rest_unlogged(c, w.s.color),
        cycle_laws::whites_settled(w.s, Seq::empty()),
    ensures
        cycle_laws::accounts(c.heap, cycle_phases::scan_each(c, w, xs).s, base),
        cycle_laws::rest_unlogged(c, cycle_phases::scan_each(c, w, xs).s.color),
        cycle_laws::whites_settled(cycle_phases::scan_each(c, w, xs).s, Seq::empty()),
    decreases xs.len(),
{
    if xs.len() > 0 {
        let p = xs.drop_last();
        cycle_model::pop_in_heap(c, xs);
        scan_each_keeps_accounts(c, w, p, base);
        cycle_phases::scan_each_covers(c, w, p);
        let v = cycle_phases::scan_each(c, w, p);
        let start = cycle_model::walk_from(v.s, xs.last(), v.visited, v.nested);
        assert(c.holds(start.stack));
        cycle_laws::scan_keeps_accounts(c, start, base);
    }
}

/// A reference that an object holds occurs among its references.
pub proof fn contained_occurs(xs: Seq<ObjectReference>, x: ObjectReference)
    requires
        xs.contains(x),
    ensures
        cycle_laws::occurrences(xs, x.granule()) > 0,
    decreases xs.len(),
{
    if xs.last() != x {
        let i = choose|i: int| 0 <= i < xs.len() && xs[i] == x;
        assert(xs.drop_last()[i] == x);
        contained_occurs(xs.drop_last(), x);
    }
}

/// After the scan, a white object is referred to by white objects only, and not
/// from outside.
pub proof fn white_after_scan_is_garbage(
    c: Snapshot,
    w: Walk,
    xs: Seq<ObjectReference>,
    base: spec_fn(usize) -> nat,
    o: ObjectReference,
    p: ObjectReference,
)
    requires
        c.wf(),
        c.holds(xs),
        c.covers(w.s.color),
        marking_invariant(c, w.s, base),
        cycle_grey::all_grey_reached(c.heap, w.s.color, xs),
        c.heap.contains(o),
        base(o.granule()) >= 1,
        cycle_phases::scan_each(c, w, xs).s.color_of(o) == WHITE,
        c.heap.contains(p),
        cycle_grey::children(c.heap, p).contains(o),
    ensures
        base(o.granule()) == 1,
        neither_black_nor_grey(cycle_phases::scan_each(c, w, xs).s, p),
{
    let f = cycle_phases::scan_each(c, w, xs);
    assert(cycle_laws::whites_settled(w.s, Seq::empty())) by {
        assert forall|g: usize|
            #![trigger w.s.color[g]]
            w.s.color[g] == 3 && !cycle_laws::on_stack(Seq::empty(), g) implies w.s.counts.count(g)
            <= 1 by {}
    }
    scan_each_keeps_accounts(c, w, xs, base);
    cycle_grey::scan_leaves_nothing_grey(c, w, xs, p);
    let g = o.granule();
    assert(!cycle_laws::on_stack(Seq::empty(), g));
    assert(f.s.color[g] == 3);
    assert(f.s.counts.count(g) == base(g) + cycle_laws::black_refs(c.heap, f.s.color, g));
    if f.s.is_black(p) {
        let k = c.heap.place(p);
        cycle_laws::white_objects_are_not_referenced(c.heap, f.s, base, o, k);
        contained_occurs(cycle_grey::children(c.heap, p), o);
    }
}

/// Whether every granule is black.
pub open spec fn all_black(color: Map<usize, u8>) -> bool {
    forall|g: usize| #[trigger] color[g] <= 1
}

/// The collection of one pool turns only garbage white.
///
/// It begins with every object black and every count the bias of the object,
/// its references from outside, and the references that objects hold. When its
/// scan phase ends, an object that is white has no reference from outside, and
/// every object that refers to it is white too.
pub proof fn only_garbage_turns_white(
    c: Snapshot,
    vec_index: u8,
    s: CycleState,
    buffers: Seq<Seq<ObjectReference>>,
    counters: (usize, usize, usize),
    base: spec_fn(usize) -> nat,
    o: ObjectReference,
    p: ObjectReference,
)
    requires
        c.wf(),
        c.covers(s.color),
        cycle_phases::all_in_heap(c, buffers),
        all_black(s.color),
        cycle_laws::accounts(c.heap, s, base),
        cycle_laws::in_range(c.heap, base),
        c.heap.contains(o),
        base(o.granule()) >= 1,
        c.heap.contains(p),
        cycle_grey::children(c.heap, p).contains(o),
    ensures
        ({
            let m = cycle_phases::mark_buffers(
                c,
                vec_index,
                cycle_phases::buffers_from(s, buffers, counters.0),
            );
            let f = cycle_phases::scan_each(
                c,
                cycle_phases::carry(m.s, counters.1, counters.2),
                m.buffers.flatten(),
            );
            f.s.color_of(o) == WHITE ==> base(o.granule()) == 1 && neither_black_nor_grey(f.s, p)
        }),
{
    let b = cycle_phases::buffers_from(s, buffers, counters.0);
    let m = cycle_phases::mark_buffers(c, vec_index, b);
    let w = cycle_phases::carry(m.s, counters.1, counters.2);
    let xs = m.buffers.flatten();
    start_invariant(c, s, base);
    mark_buffers_keeps_invariant(c, vec_index, b, base);
    cycle_phases::mark_buffers_covers(c, vec_index, b);
    cycle_phases::flatten_in_heap(c, m.buffers);
    nothing_grey_is_reached(c.heap, s.color, Seq::empty() + cycle_grey::passed(buffers, 0, 0));
    cycle_grey::mark_buffers_reaches(c, vec_index, b, Seq::empty());
    assert(Seq::empty() + xs =~= xs);
    let f = cycle_phases::scan_each(c, w, xs);
    if f.s.color_of(o) == WHITE {
        white_after_scan_is_garbage(c, w, xs, base, o, p);
    }
}

/// Where every object is black, the marking invariant begins to hold.
pub proof fn start_invariant(c: Snapshot, s: CycleState, base: spec_fn(usize) -> nat)
    requires
        all_black(s.color),
        cycle_laws::accounts(c.heap, s, base),
        cycle_laws::in_range(c.heap, base),
    ensures
        marking_invariant(c, s, base),
{
    assert forall|k: int, j: int|
        #![trigger c.heap.objects@[k].slots@[j]]
        0 <= k < c.heap.objects@.len() && 0 <= j < c.heap.objects@[k].slots@.len()
            && s.color[c.heap.objects@[k].object.granule()] >= 2
            implies c.unlog[c.heap.objects@[k].slots@[j]] == 1 by {
        assert(s.color[c.heap.objects@[k].object.granule()] <= 1);
    }
    assert forall|g: usize| #[trigger] s.color[g] <= 2 by {
        assert(s.color[g] <= 1);
    }
}

/// Where every object is black, every grey object is reached.
pub proof fn nothing_grey_is_reached(
    heap: Heap,
    color: Map<usize, u8>,
    roots: Seq<ObjectReference>,
)
    requires
        all_black(color),
    ensures
        cycle_grey::all_grey_reached(heap, color, roots),
{
    assert forall|q: ObjectReference| #[trigger]
        heap.contains(q) && color[q.granule()] == 2 implies cycle_grey::reached(
        heap,
        color,
        roots,
        q,
    ) by {
        assert(color[q.granule()] <= 1);
    }
}

/// The marking invariant does not depend on the tag of new candidates.
pub proof fn invariant_of_round(
    c: Snapshot,
    curr: u8,
    i: int,
    s: CycleState,
    base: spec_fn(usize) -> nat,
)
    ensures
        marking_invariant(gc_work::round_snapshot(c, curr, i), s, base) <==> marking_invariant(
            c,
            s,
            base,
        ),
{
    let d = gc_work::round_snapshot(c, curr, i);
    if cycle_laws::rest_unlogged(c, s.color) {
        assert(cycle_laws::rest_unlogged(d, s.color));
    }
    if cycle_laws::rest_unlogged(d, s.color) {
        assert forall|k: int, j: int|
            #![trigger c.heap.objects@[k].slots@[j]]
            0 <= k < c.heap.objects@.len() && 0 <= j < c.heap.objects@[k].slots@.len()
                && s.color[c.heap.objects@[k].object.granule()] >= 2
                implies c.unlog[c.heap.objects@[k].slots@[j]] == 1 by {
            assert(d.heap.objects@[k].slots@[j] == c.heap.objects@[k].slots@[j]);
        }
    }
}

/// One round of marking keeps what has to be kept.
pub proof fn round_keeps(
    curr: u8,
    c: Snapshot,
    i: int,
    s: CycleState,
    buffers: Seq<Seq<ObjectReference>>,
    visited: usize,
    base: spec_fn(usize) -> nat,
    before: Seq<ObjectReference>,
)
    requires
        c.wf(),
        curr < 3,
        0 <= i < 3,
        c.covers(s.color),
        cycle_phases::all_in_heap(c, buffers),
        marking_invariant(c, s, base),
        cycle_grey::all_grey_reached(c.heap, s.color, before),
    ensures
        ({
            let m = gc_work::mark_round_of(curr, c, i, s, buffers, visited);
            &&& c.covers(m.s.color)
            &&& cycle_phases::all_in_heap(c, m.buffers)
            &&& c.holds(m.buffers.flatten())
            &&& marking_invariant(c, m.s, base)
            &&& cycle_grey::all_grey_reached(c.heap, m.s.color, before + m.buffers.flatten())
        }),
{
    let d = gc_work::round_snapshot(c, curr, i);
    let t = (gc_work::visited_pool(curr, i) + 1) as u8;
    let b = cycle_phases::buffers_from(s, buffers, visited);
    let m = cycle_phases::mark_buffers(d, t, b);
    assert(d.wf());
    assert(d.covers(s.color));
    assert(cycle_phases::all_in_heap(d, buffers));
    invariant_of_round(c, curr, i, s, base);
    mark_buffers_keeps_invariant(d, t, b, base);
    invariant_of_round(c, curr, i, m.s, base);
    cycle_phases::mark_buffers_covers(d, t, b);
    assert(cycle_phases::all_in_heap(c, m.buffers));
    cycle_phases::flatten_in_heap(c, m.buffers);
    let roots = before + cycle_grey::passed(buffers, 0, 0);
    assert forall|q: ObjectReference| #[trigger] before.contains(q) implies roots.contains(q) by {
        let k = choose|k: int| 0 <= k < before.len() && before[k] == q;
        assert(roots[k] == q);
    }
    cycle_grey::more_roots(c.heap, s.color, before, roots);
    cycle_grey::mark_buffers_reaches(d, t, b, before);
}

/// The collection of all pools turns only garbage white, also where a cycle
/// spans pools.
pub proof fn only_garbage_turns_white_in_full_collection(
    curr: u8,
    c: Snapshot,
    s: CycleState,
    d: (Seq<Seq<ObjectReference>>, Seq<Seq<ObjectReference>>, Seq<Seq<ObjectReference>>),
    counters: (usize, usize, usize),
    base: spec_fn(usize) -> nat,
    o: ObjectReference,
    p: ObjectReference,
)
    requires
        c.wf(),
        curr < 3,
        c.covers(s.color),
        cycle_phases::all_in_heap(c, d.0),
        cycle_phases::all_in_heap(c, d.1),
        cycle_phases::all_in_heap(c, d.2),
        all_black(s.color),
        cycle_laws::accounts(c.heap, s, base),
        cycle_laws::in_range(c.heap, base),
        c.heap.contains(o),
        base(o.granule()) >= 1,
        c.heap.contains(p),
        cycle_grey::children(c.heap, p).contains(o),
    ensures
        ({
            let (m0, m1, m2) = gc_work::mark_rounds(curr, c, s, d, counters.0);
            let left = m0.buffers.flatten() + m1.buffers.flatten() + m2.buffers.flatten();
            let f = cycle_phases::scan_each(
                c,
                cycle_phases::carry(m2.s, counters.1, counters.2),
                left,
            );
            f.s.color_of(o) == WHITE ==> base(o.granule()) == 1 && neither_black_nor_grey(f.s, p)
        }),
{
    let (m0, m1, m2) = gc_work::mark_rounds(curr, c, s, d, counters.0);
    let (l0, l1, l2) = (m0.buffers.flatten(), m1.buffers.flatten(), m2.buffers.flatten());
    start_invariant(c, s, base);
    nothing_grey_is_reached(c.heap, s.color, Seq::empty());
    round_keeps(curr, c, 0, s, d.0, counters.0, base, Seq::empty());
    assert(Seq::empty() + l0 =~= l0);
    round_keeps(curr, c, 1, m0.s, d.1, m0.visited, base, l0);
    round_keeps(curr, c, 2, m1.s, d.2, m1.visited, base, l0 + l1);
    cycle_model::concat_in_heap(c, l0, l1);
    cycle_model::concat_in_heap(c, l0 + l1, l2);
    let w = cycle_phases::carry(m2.s, counters.1, counters.2);
    let xs = l0 + l1 + l2;
    let f = cycle_phases::scan_each(c, w, xs);
    if f.s.color_of(o) == WHITE {
        white_after_scan_is_garbage(c, w, xs, base, o, p);
    }
}

/// Where trial deletion finds no garbage, it leaves no trace in the counts: if
/// every object is black again, every count is what it was.
pub proof fn counts_are_restored(
    heap: Heap,
    before: CycleState,
    after: CycleState,
    base: spec_fn(usize) -> nat,
    g: usize,
)
    requires
        all_black(before.color),
        all_black(after.color),
        cycle_laws::accounts(heap, before, base),
        cycle_laws::accounts(heap, after, base),
    ensures
        after.counts.count(g) == before.counts.count(g),
{
    assert forall|h: usize| #[trigger] after.color[h] <= 1 <==> before.color[h] <= 1 by {
        assert(before.color[h] <= 1);
    }
    cycle_laws::same_black_refs(heap, before.color, after.color, g);
    assert(before.counts.count(g) == base(g) + cycle_laws::black_refs(heap, before.color, g));
    assert(after.counts.count(g) == base(g) + cycle_laws::black_refs(heap, after.color, g));
}

/// The collection of all pools visits each pool exactly once.
pub proof fn every_pool_is_visited_once(curr: u8, p: int)
    requires
        curr < 3,
        0 <= p < 3,
    ensures
        exists|i: int| 0 <= i < 3 && #[trigger] gc_work::visited_pool(curr, i) == p,
        forall|i: int, j: int|
            0 <= i < 3 && 0 <= j < 3 && #[trigger] gc_work::visited_pool(curr, i)
                == #[trigger] gc_work::visited_pool(curr, j) ==> i == j,
{
    let i = (p - curr + 5) % 3;
    assert(gc_work::visited_pool(curr, i) == p);
}

/// While the candidates of a pool are marked from, new candidates go to another
/// pool.
pub proof fn filled_pool_is_not_visited(curr: u8, i: int)
    requires
        curr < 3,
        0 <= i < 3,
    ensures
        gc_work::filled_pool(curr, i) != gc_work::visited_pool(curr, i),
{
}

/// An object that becomes a candidate carries the tag of the pool that takes
/// it: the one that is pushed is the one that is tagged.
pub proof fn new_candidates_are_tagged(c: Snapshot, w: Walk, i: int)
    requires
        c.wf(),
        c.holds(w.stack),
        w.out.len() <= i < cycle_model::mark_all(c, w).out.len(),
    ensures
        cycle_model::mark_all(c, w).s.cand[cycle_model::mark_all(c, w).out[i].granule()] == c.tag,
    decreases
            cycle_model::count_all(c.heap, cycle_model::unmarked(w.s)),
            w.stack.len(),
{
    if w.stack.len() > 0 {
        let v = cycle_model::mark_step(c, w);
        cycle_model::mark_step_progress(c, w);
        if i >= v.out.len() {
            new_candidates_are_tagged(c, v, i);
        } else {
            mark_all_keeps_out(c, v);
            let f = cycle_model::mark_all(c, v);
            assert(f.out[i] == v.out[i]);
            let o = w.stack.last();
            let xs = cycle_model::refs(c.heap, c.unlogged_slots(o));
            let t = cycle_model::take_away(w.s.paint(o, GREY), xs).paint(o, BLACK_IN_STACK);
            let x = v.out[i];
            give_back_tags(t, xs, c.tag);
            if i < w.out.len() + xs.len() {
                assert(x == xs.reverse()[i - w.out.len()]);
                assert(xs.contains(x));
            } else {
                assert(x == o);
            }
            assert(v.s.cand[x.granule()] == c.tag);
            mark_all_keeps_tags(c, v, x.granule());
        }
    }
}

/// Trial deletion only adds to the new candidates.
pub proof fn mark_all_keeps_out(c: Snapshot, w: Walk)
    requires
        c.wf(),
        c.holds(w.stack),
    ensures
        cycle_model::mark_all(c, w).out.len() >= w.out.len(),
        forall|i: int|
            0 <= i < w.out.len() ==> #[trigger] cycle_model::mark_all(c, w).out[i] == w.out[i],
    decreases
            cycle_model::count_all(c.heap, cycle_model::unmarked(w.s)),
            w.stack.len(),
{
    if w.stack.len() > 0 {
        cycle_model::mark_step_progress(c, w);
        let v = cycle_model::mark_step(c, w);
        mark_all_keeps_out(c, v);
        assert forall|i: int| 0 <= i < w.out.len() implies #[trigger] cycle_model::mark_all(
            c,
            w,
        ).out[i] == w.out[i] by {
            assert(v.out[i] == w.out[i]);
        }
    }
}

/// Giving references back tags every object that gets one, and keeps the tag on
/// those that had it.
pub proof fn give_back_tags(s: CycleState, xs: Seq<ObjectReference>, tag: u8)
    ensures
        forall|x: ObjectReference| #[trigger]
            xs.contains(x) ==> cycle_model::give_back(s, xs, tag).cand[x.granule()] == tag,
        forall|g: usize|
            s.cand[g] == tag ==> #[trigger] cycle_model::give_back(s, xs, tag).cand[g] == tag,
    decreases xs.len(),
{
    if xs.len() > 0 {
        let p = xs.drop_last();
        let y = xs.last();
        let t = s.inc(y).tagged(y, tag);
        let u = if t.is_black(y) {
            t
        } else {
            t.strong_dec(y)
        };
        give_back_tags(u, p, tag);
        let f = cycle_model::give_back(s, xs, tag);
        assert forall|g: usize| s.cand[g] == tag implies #[trigger] f.cand[g] == tag by {
            assert(u.cand[g] == tag);
            assert(cycle_model::give_back(u, p, tag).cand[g] == tag);
        }
        assert forall|x: ObjectReference| #[trigger] xs.contains(x) implies f.cand[x.granule()]
            == tag by {
            if x == y {
                assert(u.cand[x.granule()] == tag);
                assert(cycle_model::give_back(u, p, tag).cand[x.granule()] == tag);
            } else {
                let i = choose|i: int| 0 <= i < xs.len() && xs[i] == x;
                assert(p[i] == x);
                assert(p.contains(x));
            }
        }
    }
}

/// Trial deletion keeps the tag of the pool that takes new candidates.
proof fn mark_all_keeps_tags(c: Snapshot, w: Walk, g: usize)
    requires
        c.wf(),
        c.holds(w.stack),
        w.s.cand[g] == c.tag,
    ensures
        cycle_model::mark_all(c, w).s.cand[g] == c.tag,
    decreases
            cycle_model::count_all(c.heap, cycle_model::unmarked(w.s)),
            w.stack.len(),
{
    if w.stack.len() > 0 {
        cycle_model::mark_step_progress(c, w);
        let v = cycle_model::mark_step(c, w);
        let o = w.stack.last();
        if cycle_model::markable(w.s, o) {
            let xs = cycle_model::refs(c.heap, c.unlogged_slots(o));
            let s1 = w.s.paint(o, GREY);
            cycle_model::take_away_frame(s1, xs);
            let t = cycle_model::take_away(s1, xs).paint(o, BLACK_IN_STACK);
            if c.has_logged_slot(o) {
                give_back_tags(t, xs, c.tag);
                assert(t.cand[g] == c.tag);
                assert(cycle_model::give_back(t, xs, c.tag).cand[g] == c.tag);
            }
        }
        mark_all_keeps_tags(c, v, g);
    }
}

} // verus!
