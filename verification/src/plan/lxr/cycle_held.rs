//! What a collection leaves is held: it has a strong reference or is a candidate.

use crate::plan::lxr::buffer;
use crate::plan::lxr::cycle_complete;
use crate::plan::lxr::cycle_grey;
use crate::plan::lxr::cycle_laws;
use crate::plan::lxr::cycle_model;
use crate::plan::lxr::cycle_model::{CycleState, Snapshot, Walk};
use crate::plan::lxr::cycle_phases;
use crate::plan::lxr::cycle_phases::BufferWalk;
use crate::plan::lxr::cycle_reclaim;
use crate::plan::lxr::cycle_soundness;
use crate::plan::lxr::cycle_stats::CycleCollectorStats;
use crate::plan::lxr::gc_work;
use crate::plan::lxr::global::Lxr;
use crate::util::address::ObjectReference;
use crate::util::rc::{BLACK_IN_STACK, GREY, WHITE};
use crate::vm::heap::Heap;
use vstd::prelude::*;

verus! {

/// Whether every object is held and has no more strong references than
/// references.
pub open spec fn all_held(heap: Heap, s: CycleState) -> bool {
    forall|o: ObjectReference| #[trigger]
        heap.contains(o) ==> s.is_held(o) && s.strong[o.granule()] <= s.counts.count(o.granule())
}

/// Whether every black object is held or on the stack, and no object has more
/// strong references than references. What was reclaimed is left out.
pub open spec fn holding(heap: Heap, s: CycleState, stack: Seq<ObjectReference>) -> bool {
    forall|o: ObjectReference| #[trigger]
        heap.contains(o) && s.counts.rc[o.granule()] != 0 ==> {
            &&& s.strong[o.granule()] <= s.counts.count(o.granule())
            &&& s.is_black(o) ==> s.is_held(o) || stack.contains(o)
        }
}

/// Whether every object has a count.
pub open spec fn all_counted(heap: Heap, s: CycleState) -> bool {
    forall|o: ObjectReference| #[trigger] heap.contains(o) ==> s.counts.rc[o.granule()] != 0
}

/// An account with a bias for every object gives every object a count.
proof fn accounts_count_all(heap: Heap, s: CycleState, base: spec_fn(usize) -> nat)
    requires
        cycle_laws::accounts(heap, s, base),
        forall|o: ObjectReference| #[trigger] heap.contains(o) ==> base(o.granule()) >= 1,
    ensures
        all_counted(heap, s),
{
    assert forall|o: ObjectReference| #[trigger] heap.contains(o) implies s.counts.rc[o.granule()]
        != 0 by {
        assert(s.counts.count(o.granule()) == base(o.granule()) + cycle_laws::black_refs(
            heap,
            s.color,
            o.granule(),
        ));
    }
}

/// Taking references away leaves no object with more strong references than
/// references, and others alone.
proof fn take_away_holds(s: CycleState, xs: Seq<ObjectReference>, g: usize)
    requires
        cycle_reclaim::entry_wf(s.counts, g),
        s.strong[g] <= s.counts.count(g),
    ensures
        ({
            let f = cycle_model::take_away(s, xs);
            &&& cycle_reclaim::entry_wf(f.counts, g)
            &&& f.strong[g] <= f.counts.count(g)
            &&& cycle_laws::occurrences(xs, g) == 0 ==> f.strong[g] == s.strong[g]
        }),
    decreases xs.len(),
{
    if xs.len() > 0 {
        take_away_holds(s, xs.drop_last(), g);
    }
}

/// Giving references back leaves no object with more strong references than
/// references, and others alone.
proof fn give_back_holds(s: CycleState, xs: Seq<ObjectReference>, tag: u8, g: usize)
    requires
        s.strong[g] <= s.counts.count(g),
    ensures
        ({
            let f = cycle_model::give_back(s, xs, tag);
            &&& f.strong[g] <= f.counts.count(g)
            &&& cycle_laws::occurrences(xs, g) == 0 ==> f.strong[g] == s.strong[g] && f.cand[g]
                == s.cand[g]
        }),
    decreases xs.len(),
{
    if xs.len() > 0 {
        let x = xs.last();
        let t = s.inc(x).tagged(x, tag);
        let u = if t.is_black(x) {
            t
        } else {
            t.strong_dec(x)
        };
        give_back_holds(u, xs.drop_last(), tag, g);
    }
}

/// Restoring references lowers no strong count and no count in the table, and
/// leaves no object with more strong references than references.
proof fn restore_holds(s: CycleState, xs: Seq<ObjectReference>, g: usize)
    requires
        s.strong[g] <= s.counts.count(g),
    ensures
        ({
            let f = cycle_model::restore(s, xs);
            &&& f.strong[g] <= f.counts.count(g)
            &&& f.strong[g] >= s.strong[g]
            &&& f.counts.rc[g] >= s.counts.rc[g]
        }),
    decreases xs.len(),
{
    if xs.len() > 0 {
        restore_holds(s, xs.drop_last(), g);
    }
}

/// A step of trial deletion leaves every black object held or on the stack.
proof fn mark_step_holds(c: Snapshot, w: Walk)
    requires
        c.wf(),
        c.holds(w.stack),
        w.stack.len() > 0,
        w.s.counts.wf(),
        all_counted(c.heap, w.s),
        holding(c.heap, w.s, w.stack),
    ensures
        holding(c.heap, cycle_model::mark_step(c, w).s, cycle_model::mark_step(c, w).stack),
{
    let heap = c.heap;
    let o = w.stack.last();
    let v = cycle_model::mark_step(c, w);
    let rest = w.stack.drop_last();
    let xs = cycle_model::refs(heap, c.unlogged_slots(o));
    let s1 = w.s.paint(o, GREY);
    let t = cycle_model::take_away(s1, xs);
    let u = t.paint(o, BLACK_IN_STACK);
    cycle_model::pop_in_heap(c, w.stack);
    cycle_model::take_away_frame(s1, xs);
    cycle_model::give_back_frame(u, xs, c.tag);
    cycle_soundness::give_back_tags(u, xs, c.tag);
    cycle_model::mark_step_progress(c, w);
    cycle_model::first_logged_bounds(c.unlog, heap.slots(o), 0);
    assert forall|j: int| 0 <= j < c.unlogged_slots(o).len() implies heap.fields@.dom().contains(
        #[trigger] c.unlogged_slots(o)[j],
    ) by {
        assert(heap.objects@[heap.place(o)].slots@[j] == c.unlogged_slots(o)[j]);
    }
    cycle_model::refs_in_heap(c, c.unlogged_slots(o));
    assert forall|x: ObjectReference| #[trigger]
        heap.contains(x) && v.s.counts.rc[x.granule()] != 0 implies {
        &&& v.s.strong[x.granule()] <= v.s.counts.count(x.granule())
        &&& v.s.is_black(x) ==> v.s.is_held(x) || v.stack.contains(x)
    } by {
        let g = x.granule();
        if x != o {
            assert(g != o.granule());
        }
        if w.stack.contains(x) && x != o {
            let i = choose|i: int| 0 <= i < w.stack.len() && w.stack[i] == x;
            assert(i < rest.len());
            assert(v.stack[i] == x);
        }
        assert(cycle_reclaim::entry_wf(w.s.counts, g));
        if cycle_model::markable(w.s, o) {
            take_away_holds(s1, xs, g);
            give_back_holds(u, xs, c.tag, g);
            if cycle_laws::occurrences(xs, g) > 0 {
                cycle_reclaim::occurs_is_contained(heap, xs, x);
                if !c.has_logged_slot(o) {
                    let i = choose|i: int| 0 <= i < xs.len() && xs[i] == x;
                    assert(v.stack[rest.len() + i] == x);
                }
            }
        }
    }
}

/// Trial deletion leaves every black object held.
proof fn mark_all_holds(c: Snapshot, w: Walk, base: spec_fn(usize) -> nat)
    requires
        c.wf(),
        c.holds(w.stack),
        cycle_laws::accounts(c.heap, w.s, base),
        cycle_laws::in_range(c.heap, base),
        cycle_laws::rest_unlogged(c, w.s.color),
        forall|o: ObjectReference| #[trigger] c.heap.contains(o) ==> base(o.granule()) >= 1,
        holding(c.heap, w.s, w.stack),
    ensures
        holding(c.heap, cycle_model::mark_all(c, w).s, Seq::empty()),
    decreases
            cycle_model::count_all(c.heap, cycle_model::unmarked(w.s)),
            w.stack.len(),
{
    if w.stack.len() > 0 {
        cycle_model::mark_step_progress(c, w);
        accounts_count_all(c.heap, w.s, base);
        mark_step_holds(c, w);
        cycle_laws::mark_step_keeps_accounts(c, w, base);
        mark_all_holds(c, cycle_model::mark_step(c, w), base);
    } else {
        assert(w.stack =~= Seq::empty());
    }
}

/// The mark phase over one pool leaves every black object held.
proof fn mark_buffers_holds(
    c: Snapshot,
    vec_index: u8,
    b: BufferWalk,
    base: spec_fn(usize) -> nat,
)
    requires
        c.wf(),
        b.wf(),
        cycle_phases::all_in_heap(c, b.buffers),
        cycle_soundness::marking_invariant(c, b.s, base),
        forall|o: ObjectReference| #[trigger] c.heap.contains(o) ==> base(o.granule()) >= 1,
        holding(c.heap, b.s, Seq::empty()),
    ensures
        holding(c.heap, cycle_phases::mark_buffers(c, vec_index, b).s, Seq::empty()),
    decreases b.pending().len(),
{
    let (bi, ei) = buffer::seek(b.buffers, b.bi, b.ei);
    if bi < b.buffers.len() {
        cycle_phases::mark_buffer_step_progress(c, vec_index, b);
        let o = b.buffers[bi][ei];
        let f = cycle_phases::mark_buffer_step(c, vec_index, b);
        cycle_soundness::mark_buffer_step_keeps_invariant(c, vec_index, b, base);
        if cycle_phases::should_mark(b.s, o, vec_index) {
            let w = cycle_model::walk_from(b.s.tagged(o, 0), o, b.visited, 0);
            assert(c.holds(w.stack));
            assert(w.stack[0] == o);
            assert forall|x: ObjectReference| #[trigger]
                c.heap.contains(x) && w.s.counts.rc[x.granule()] != 0 implies {
                &&& w.s.strong[x.granule()] <= w.s.counts.count(x.granule())
                &&& w.s.is_black(x) ==> w.s.is_held(x) || w.stack.contains(x)
            } by {
                assert(!Seq::<ObjectReference>::empty().contains(x));
                if x.granule() == o.granule() {
                    assert(x == o);
                }
            }
            assert(cycle_laws::accounts(c.heap, w.s, base)) by {
                assert forall|g: usize| #[trigger] w.s.counts.count(g) == base(g)
                    + cycle_laws::black_refs(c.heap, w.s.color, g) by {
                    assert(b.s.counts.count(g) == base(g) + cycle_laws::black_refs(
                        c.heap,
                        b.s.color,
                        g,
                    ));
                }
            }
            mark_all_holds(c, w, base);
        } else {
            assert forall|x: ObjectReference| #[trigger]
                c.heap.contains(x) && f.s.counts.rc[x.granule()] != 0 implies {
                &&& f.s.strong[x.granule()] <= f.s.counts.count(x.granule())
                &&& f.s.is_black(x) ==> f.s.is_held(x) || Seq::<ObjectReference>::empty().contains(x)
            } by {
                assert(!Seq::<ObjectReference>::empty().contains(x));
            }
        }
        mark_buffers_holds(c, vec_index, f, base);
    }
}

/// Whether every object of the stack that is not black has a reference beyond
/// the bias.
pub open spec fn restorable(s: CycleState, stack: Seq<ObjectReference>) -> bool {
    forall|i: int|
        #![trigger stack[i]]
        0 <= i < stack.len() && !s.is_black(stack[i]) ==> s.counts.rc[stack[i].granule()] >= 2
}

/// A step of restoring leaves every black object held, and visits next only what
/// has a reference beyond the bias.
proof fn scan_black_step_holds(c: Snapshot, w: Walk, base: spec_fn(usize) -> nat)
    requires
        c.wf(),
        c.holds(w.stack),
        c.covers(w.s.color),
        w.stack.len() > 0,
        cycle_laws::accounts(c.heap, w.s, base),
        cycle_laws::in_range(c.heap, base),
        cycle_laws::rest_unlogged(c, w.s.color),
        cycle_laws::whites_settled(w.s, w.stack),
        forall|o: ObjectReference| #[trigger] c.heap.contains(o) ==> base(o.granule()) >= 1,
        holding(c.heap, w.s, Seq::empty()),
        restorable(w.s, w.stack),
    ensures
        holding(c.heap, cycle_model::scan_black_step(c, w).s, Seq::empty()),
        restorable(
            cycle_model::scan_black_step(c, w).s,
            cycle_model::scan_black_step(c, w).stack,
        ),
{
    let heap = c.heap;
    let o = w.stack.last();
    let v = cycle_model::scan_black_step(c, w);
    cycle_model::pop_in_heap(c, w.stack);
    cycle_model::scan_black_step_progress(c, w);
    accounts_count_all(heap, w.s, base);
    assert(w.stack[w.stack.len() - 1] == o);
    if w.s.is_black(o) {
        assert forall|i: int|
            #![trigger v.stack[i]]
            0 <= i < v.stack.len() && !v.s.is_black(v.stack[i])
            implies v.s.counts.rc[v.stack[i].granule()] >= 2 by {
            assert(v.stack[i] == w.stack[i]);
        }
        assert forall|x: ObjectReference| #[trigger]
            heap.contains(x) && v.s.counts.rc[x.granule()] != 0 implies {
            &&& v.s.strong[x.granule()] <= v.s.counts.count(x.granule())
            &&& v.s.is_black(x) ==> v.s.is_held(x) || Seq::<ObjectReference>::empty().contains(x)
        } by {
            assert(!Seq::<ObjectReference>::empty().contains(x));
            if x != o {
                assert(x.granule() != o.granule());
            }
        }
    } else {
        let t = w.s.paint(o, BLACK_IN_STACK).with_strong(
            o,
            cycle_model::restored_strong(w.s.counts.rc[o.granule()]),
        );
        let xs = cycle_model::satb_refs(c, heap.slots(o));
        cycle_model::restore_frame(t, xs);
        cycle_complete::current_children(c, w.s.color, o);
        cycle_laws::scan_black_step_keeps_accounts(c, w, base);
        assert forall|x: ObjectReference| #[trigger] heap.contains(x) implies t.strong[x.granule()]
            <= t.counts.count(x.granule()) by {
            if x != o {
                assert(x.granule() != o.granule());
            }
        }
        assert forall|x: ObjectReference| #[trigger]
            heap.contains(x) && v.s.counts.rc[x.granule()] != 0 implies {
            &&& v.s.strong[x.granule()] <= v.s.counts.count(x.granule())
            &&& v.s.is_black(x) ==> v.s.is_held(x) || Seq::<ObjectReference>::empty().contains(x)
        } by {
            assert(!Seq::<ObjectReference>::empty().contains(x));
            restore_holds(t, xs, x.granule());
            if x != o {
                assert(x.granule() != o.granule());
            }
        }
        assert forall|i: int|
            #![trigger v.stack[i]]
            0 <= i < v.stack.len() && !v.s.is_black(v.stack[i])
            implies v.s.counts.rc[v.stack[i].granule()] >= 2 by {
            let y = v.stack[i];
            assert(heap.contains(y));
            restore_holds(t, xs, y.granule());
            if i < w.stack.len() {
                assert(y == w.stack[i]);
            } else {
                cycle_complete::picked_from(t.color, xs, i - w.stack.len());
                assert(xs.contains(y));
                cycle_soundness::contained_occurs(xs, y);
                let k = heap.place(o);
                assert(heap.objects@[k].object == o);
                cycle_reclaim::refs_from_one(
                    heap,
                    cycle_laws::black(v.s.color),
                    y.granule(),
                    heap.objects@.len(),
                    k,
                );
                assert(v.s.counts.count(y.granule()) == base(y.granule())
                    + cycle_laws::black_refs(heap, v.s.color, y.granule()));
            }
        }
    }
}

/// Restoring leaves every black object held.
proof fn scan_black_holds(c: Snapshot, w: Walk, base: spec_fn(usize) -> nat)
    requires
        c.wf(),
        c.holds(w.stack),
        c.covers(w.s.color),
        cycle_laws::accounts(c.heap, w.s, base),
        cycle_laws::in_range(c.heap, base),
        cycle_laws::rest_unlogged(c, w.s.color),
        cycle_laws::whites_settled(w.s, w.stack),
        forall|o: ObjectReference| #[trigger] c.heap.contains(o) ==> base(o.granule()) >= 1,
        holding(c.heap, w.s, Seq::empty()),
        restorable(w.s, w.stack),
    ensures
        holding(c.heap, cycle_model::scan_black_all(c, w).s, Seq::empty()),
    decreases
            cycle_model::count_all(c.heap, cycle_model::not_black(w.s)),
            w.stack.len(),
{
    if w.stack.len() > 0 {
        cycle_model::scan_black_step_progress(c, w);
        scan_black_step_holds(c, w, base);
        cycle_laws::scan_black_step_keeps_accounts(c, w, base);
        scan_black_holds(c, cycle_model::scan_black_step(c, w), base);
    }
}

/// A scan leaves every black object held.
proof fn scan_holds(c: Snapshot, w: Walk, base: spec_fn(usize) -> nat)
    requires
        c.wf(),
        c.holds(w.stack),
        c.covers(w.s.color),
        cycle_laws::accounts(c.heap, w.s, base),
        cycle_laws::in_range(c.heap, base),
        cycle_laws::rest_unlogged(c, w.s.color),
        cycle_laws::whites_settled(w.s, Seq::empty()),
        forall|o: ObjectReference| #[trigger] c.heap.contains(o) ==> base(o.granule()) >= 1,
        holding(c.heap, w.s, Seq::empty()),
    ensures
        holding(c.heap, cycle_model::scan_all(c, w).s, Seq::empty()),
    decreases cycle_model::count_all(c.heap, cycle_model::grey(w.s)), w.stack.len(),
{
    if w.stack.len() > 0 {
        let o = w.stack.last();
        let v = cycle_model::scan_step(c, w);
        cycle_model::scan_step_progress(c, w);
        cycle_model::pop_in_heap(c, w.stack);
        cycle_laws::scan_step_keeps_accounts(c, w, base);
        if w.s.color_of(o) == GREY && w.s.counts.rc[o.granule()] > 1 {
            let start = cycle_model::walk_from(w.s, o, w.nested, 0);
            assert(c.holds(start.stack));
            assert(cycle_laws::whites_settled(start.s, start.stack)) by {
                assert forall|g: usize|
                    #![trigger start.s.color[g]]
                    start.s.color[g] == 3 && !cycle_laws::on_stack(start.stack, g)
                    implies start.s.counts.count(g) <= 1 by {
                    assert(w.s.color[g] == 3);
                    assert(!cycle_laws::on_stack(Seq::empty(), g));
                }
            }
            scan_black_holds(c, start, base);
        }
        assert(holding(c.heap, v.s, Seq::empty()));
        scan_holds(c, v, base);
    }
}

/// The scan phase leaves every black object held.
proof fn scan_each_holds(
    c: Snapshot,
    w: Walk,
    xs: Seq<ObjectReference>,
    base: spec_fn(usize) -> nat,
)
    requires
        c.wf(),
        c.holds(xs),
        c.covers(w.s.color),
        cycle_laws::accounts(c.heap, w.s, base),
        cycle_laws::in_range(c.heap, base),
        cycle_laws::rest_unlogged(c, w.s.color),
        cycle_laws::whites_settled(w.s, Seq::empty()),
        forall|o: ObjectReference| #[trigger] c.heap.contains(o) ==> base(o.granule()) >= 1,
        holding(c.heap, w.s, Seq::empty()),
    ensures
        holding(c.heap, cycle_phases::scan_each(c, w, xs).s, Seq::empty()),
    decreases xs.len(),
{
    if xs.len() > 0 {
        let p = xs.drop_last();
        cycle_model::pop_in_heap(c, xs);
        scan_each_holds(c, w, p, base);
        cycle_phases::scan_each_covers(c, w, p);
        cycle_soundness::scan_each_keeps_accounts(c, w, p, base);
        let v = cycle_phases::scan_each(c, w, p);
        let start = cycle_model::walk_from(v.s, xs.last(), v.visited, v.nested);
        assert(c.holds(start.stack));
        scan_holds(c, start, base);
    }
}

/// Dropping references leaves what was held held, or visits it next.
proof fn drop_refs_holds(u: Walk, xs: Seq<ObjectReference>, tag: u8, x: ObjectReference)
    requires
        tag != 0,
        forall|i: int|
            0 <= i < xs.len() && (#[trigger] xs[i]).granule() == x.granule() ==> xs[i] == x,
        cycle_reclaim::entry_wf(u.s.counts, x.granule()),
        u.s.strong[x.granule()] <= u.s.counts.count(x.granule()),
    ensures
        ({
            let v = cycle_model::drop_refs(u, xs, tag);
            &&& cycle_reclaim::entry_wf(v.s.counts, x.granule())
            &&& v.s.strong[x.granule()] <= v.s.counts.count(x.granule())
            &&& u.s.is_held(x) || u.stack.contains(x) ==> v.s.is_held(x) || v.stack.contains(x)
        }),
    decreases xs.len(),
{
    if xs.len() > 0 {
        let p = xs.drop_last();
        assert forall|i: int|
            0 <= i < p.len() && (#[trigger] p[i]).granule() == x.granule() implies p[i] == x by {
            assert(p[i] == xs[i]);
        }
        drop_refs_holds(u, p, tag, x);
        let v = cycle_model::drop_refs(u, p, tag);
        let f = cycle_model::drop_refs(u, xs, tag);
        let y = xs.last();
        assert(xs[xs.len() - 1] == y);
        if v.stack.contains(x) {
            let i = choose|i: int| 0 <= i < v.stack.len() && v.stack[i] == x;
            assert(f.stack[i] == x);
        }
        if y == x && v.s.counts.count(x.granule()) == 2 {
            assert(f.stack[f.stack.len() - 1] == x);
        }
    }
}

/// Reclaiming an object touches no other.
proof fn reclaim_elsewhere(heap: Heap, s: CycleState, o: ObjectReference, q: ObjectReference)
    requires
        heap.wf(),
        cycle_reclaim::apart(heap),
        heap.contains(o),
        heap.contains(q),
        q != o,
    ensures
        ({
            let f = cycle_model::reclaim(heap, s, o);
            let g = q.granule();
            &&& f.counts.rc[g] == s.counts.rc[g]
            &&& f.counts.excess[g] == s.counts.excess[g]
            &&& f.strong[g] == s.strong[g]
            &&& f.cand[g] == s.cand[g]
            &&& f.color[g] == s.color[g]
        }),
{
    assert(q.granule() != o.granule());
}

/// A step of `collect_blacks` leaves every black object that is alive held or on
/// the stack.
proof fn collect_blacks_step_holds(c: Snapshot, w: Walk, base: spec_fn(usize) -> nat)
    requires
        c.wf(),
        cycle_reclaim::apart(c.heap),
        cycle_reclaim::kept(c.heap, w.s, base),
        cycle_reclaim::doomed(c.heap, w.s, w.stack),
        w.stack.len() > 0,
        holding(c.heap, w.s, w.stack),
    ensures
        holding(
            c.heap,
            cycle_model::collect_blacks_step(c, w).s,
            cycle_model::collect_blacks_step(c, w).stack,
        ),
{
    let heap = c.heap;
    let o = w.stack.last();
    let xs = cycle_grey::children(heap, o);
    let u = Walk { stack: w.stack.drop_last(), visited: w.visited.wrapping_add(1), ..w };
    let v = cycle_model::drop_refs(u, xs, c.tag);
    let f = cycle_model::collect_blacks_step(c, w);
    assert(w.stack[w.stack.len() - 1] == o);
    cycle_model::children_in_heap(c, o);
    cycle_reclaim::collect_blacks_step_keeps(c, w, base);
    assert(c.holds(u.stack)) by {
        assert forall|i: int| 0 <= i < u.stack.len() implies heap.contains(
            #[trigger] u.stack[i],
        ) by {
            assert(u.stack[i] == w.stack[i]);
        }
    }
    cycle_model::drop_refs_progress(c, u, xs);
    assert forall|x: ObjectReference| #[trigger]
        heap.contains(x) && f.s.counts.rc[x.granule()] != 0 implies {
        &&& f.s.strong[x.granule()] <= f.s.counts.count(x.granule())
        &&& f.s.is_black(x) ==> f.s.is_held(x) || f.stack.contains(x)
    } by {
        assert(cycle_reclaim::object_kept(heap, f.s, base, x));
        assert(cycle_reclaim::object_kept(heap, w.s, base, x));
        if x == o {
            let n = v.s.freed.len() as int;
            assert(f.s.freed[n] == o.addr);
            assert(f.s.freed.contains(o.addr));
        } else {
            reclaim_elsewhere(heap, v.s, o, x);
            assert forall|i: int|
                0 <= i < xs.len() && (#[trigger] xs[i]).granule() == x.granule() implies xs[i]
                == x by {
                assert(heap.contains(xs[i]));
            }
            if w.s.counts.rc[x.granule()] != 0 {
                drop_refs_holds(u, xs, c.tag, x);
                if w.stack.contains(x) {
                    let i = choose|i: int| 0 <= i < w.stack.len() && w.stack[i] == x;
                    assert(u.stack[i] == x);
                }
            } else {
                drop_refs_revives_nothing(u, xs, c.tag, x.granule());
            }
        }
    }
}

/// Dropping references gives nothing a count.
proof fn drop_refs_revives_nothing(u: Walk, xs: Seq<ObjectReference>, tag: u8, g: usize)
    requires
        u.s.counts.rc[g] == 0,
    ensures
        cycle_model::drop_refs(u, xs, tag).s.counts.rc[g] == 0,
    decreases xs.len(),
{
    if xs.len() > 0 {
        drop_refs_revives_nothing(u, xs.drop_last(), tag, g);
    }
}

/// `collect_blacks` leaves every black object that is alive held.
proof fn collect_blacks_holds(c: Snapshot, w: Walk, base: spec_fn(usize) -> nat)
    requires
        c.wf(),
        cycle_reclaim::apart(c.heap),
        cycle_reclaim::kept(c.heap, w.s, base),
        cycle_reclaim::doomed(c.heap, w.s, w.stack),
        holding(c.heap, w.s, w.stack),
    ensures
        holding(c.heap, cycle_model::collect_blacks_all(c, w).s, Seq::empty()),
    decreases
            cycle_model::count_all(c.heap, cycle_model::referenced(w.s)),
            w.stack.len(),
{
    assert(c.holds(w.stack)) by {
        assert forall|i: int| 0 <= i < w.stack.len() implies c.heap.contains(
            #[trigger] w.stack[i],
        ) by {}
    }
    if w.stack.len() > 0 {
        cycle_model::collect_blacks_step_progress(c, w);
        cycle_reclaim::collect_blacks_step_keeps(c, w, base);
        collect_blacks_step_holds(c, w, base);
        collect_blacks_holds(c, cycle_model::collect_blacks_step(c, w), base);
    } else {
        assert(w.stack =~= Seq::empty());
    }
}

/// The collection from one candidate leaves every black object that is alive
/// held.
proof fn collect_whites_holds(c: Snapshot, w: Walk, base: spec_fn(usize) -> nat)
    requires
        c.wf(),
        cycle_reclaim::apart(c.heap),
        cycle_reclaim::kept(c.heap, w.s, base),
        c.holds(w.stack),
        holding(c.heap, w.s, Seq::empty()),
    ensures
        cycle_reclaim::kept(c.heap, cycle_model::collect_whites_all(c, w).s, base),
        holding(c.heap, cycle_model::collect_whites_all(c, w).s, Seq::empty()),
    decreases cycle_model::count_all(c.heap, cycle_model::white(w.s)), w.stack.len(),
{
    let heap = c.heap;
    if w.stack.len() > 0 {
        let o = w.stack.last();
        let v = cycle_model::collect_whites_step(c, w);
        cycle_model::collect_whites_step_progress(c, w);
        cycle_model::pop_in_heap(c, w.stack);
        cycle_reclaim::collect_whites_step_keeps(c, w, base);
        assert(cycle_reclaim::object_kept(heap, w.s, base, o));
        if w.s.color_of(o) == WHITE {
            assert forall|x: ObjectReference| #[trigger]
                heap.contains(x) && v.s.counts.rc[x.granule()] != 0 implies {
                &&& v.s.strong[x.granule()] <= v.s.counts.count(x.granule())
                &&& v.s.is_black(x) ==> v.s.is_held(x) || Seq::<ObjectReference>::empty().contains(x)
            } by {
                assert(!Seq::<ObjectReference>::empty().contains(x));
                assert(cycle_reclaim::object_kept(heap, v.s, base, x));
                if x == o {
                    let n = w.s.freed.len() as int;
                    assert(v.s.freed[n] == o.addr);
                    assert(v.s.freed.contains(o.addr));
                } else {
                    reclaim_elsewhere(heap, w.s, o, x);
                }
            }
        } else if w.s.color_of(o) == BLACK_IN_STACK && w.s.counts.rc[o.granule()] == 1 {
            let start = cycle_model::walk_from(w.s, o, w.visited.wrapping_add(1), 0);
            assert(cycle_reclaim::doomed(heap, start.s, start.stack));
            assert forall|x: ObjectReference| #[trigger]
                heap.contains(x) && start.s.counts.rc[x.granule()] != 0 implies {
                &&& start.s.strong[x.granule()] <= start.s.counts.count(x.granule())
                &&& start.s.is_black(x) ==> start.s.is_held(x) || start.stack.contains(x)
            } by {
                assert(!Seq::<ObjectReference>::empty().contains(x));
            }
            collect_blacks_holds(c, start, base);
        }
        collect_whites_holds(c, v, base);
    }
}

/// The collect phase leaves every black object that is alive held.
proof fn collect_each_holds(
    c: Snapshot,
    w: Walk,
    xs: Seq<ObjectReference>,
    base: spec_fn(usize) -> nat,
)
    requires
        c.wf(),
        cycle_reclaim::apart(c.heap),
        cycle_reclaim::kept(c.heap, w.s, base),
        c.holds(xs),
        holding(c.heap, w.s, Seq::empty()),
    ensures
        cycle_reclaim::kept(c.heap, cycle_phases::collect_each(c, w, xs).s, base),
        holding(c.heap, cycle_phases::collect_each(c, w, xs).s, Seq::empty()),
    decreases xs.len(),
{
    if xs.len() > 0 {
        let p = xs.drop_last();
        cycle_model::pop_in_heap(c, xs);
        collect_each_holds(c, w, p, base);
        let v = cycle_phases::collect_each(c, w, p);
        let start = cycle_model::walk_from(v.s, xs.last(), v.visited, 0);
        assert(c.holds(start.stack));
        collect_whites_holds(c, start, base);
    }
}

/// From the end of the mark phase on, everything that is left stays held.
proof fn all_held_after_mark(
    c: Snapshot,
    marked: (CycleState, Seq<ObjectReference>),
    stats: CycleCollectorStats,
    base: spec_fn(usize) -> nat,
)
    requires
        c.wf(),
        cycle_reclaim::apart(c.heap),
        cycle_reclaim::ready_to_scan(c, marked, base),
        holding(c.heap, marked.0, Seq::empty()),
    ensures
        holding(
            c.heap,
            cycle_phases::collect_each(
                c,
                cycle_phases::carry(
                    cycle_reclaim::scanned(c, marked, stats),
                    stats.objects_in_collect,
                    0,
                ),
                marked.1,
            ).s,
            Seq::empty(),
        ),
{
    let (t, xs) = marked;
    let w = cycle_phases::carry(t, stats.objects_in_scan, stats.objects_in_scan_black);
    assert(cycle_laws::whites_settled(t, Seq::empty())) by {
        assert forall|g: usize|
            #![trigger t.color[g]]
            t.color[g] == 3 && !cycle_laws::on_stack(Seq::empty(), g) implies t.counts.count(g)
            <= 1 by {}
    }
    scan_each_holds(c, w, xs, base);
    cycle_reclaim::kept_after_scan(c, w, xs, base);
    let u = cycle_phases::carry(
        cycle_reclaim::scanned(c, marked, stats),
        stats.objects_in_collect,
        0,
    );
    collect_each_holds(c, u, xs, base);
}

/// What the collection of one pool leaves is held.
///
/// Where every object has a strong reference or is a candidate, and no more
/// strong references than references, that is so afterwards of every object that
/// was not reclaimed.
pub proof fn pool_collection_leaves_all_held(
    c: Snapshot,
    s: CycleState,
    buffers: Seq<Seq<ObjectReference>>,
    vec_index: u8,
    stats: CycleCollectorStats,
    base: spec_fn(usize) -> nat,
    o: ObjectReference,
)
    requires
        cycle_reclaim::ready(c, s, base),
        cycle_phases::all_in_heap(c, buffers),
        all_held(c.heap, s),
        c.heap.contains(o),
    ensures
        ({
            let f = gc_work::collect_pool(c, s, buffers, vec_index, stats).s;
            !f.freed.contains(o.addr) ==> f.is_held(o) && f.strong[o.granule()] <= f.counts.count(
                o.granule(),
            )
        }),
{
    let b = cycle_phases::buffers_from(s, buffers, stats.objects_in_mark);
    cycle_soundness::start_invariant(c, s, base);
    mark_buffers_holds(c, vec_index, b, base);
    cycle_reclaim::pool_is_ready_to_scan(c, s, buffers, vec_index, stats, base);
    let m = cycle_reclaim::marked_pool(c, s, buffers, vec_index, stats);
    all_held_after_mark(c, m, stats, base);
    cycle_reclaim::pool_collection_reclaims_only_garbage(c, s, buffers, vec_index, stats, base);
    assert(!Seq::<ObjectReference>::empty().contains(o));
}

/// One round of marking leaves every black object held.
proof fn round_holds(
    curr: u8,
    c: Snapshot,
    i: int,
    s: CycleState,
    buffers: Seq<Seq<ObjectReference>>,
    visited: usize,
    base: spec_fn(usize) -> nat,
)
    requires
        c.wf(),
        curr < 3,
        0 <= i < 3,
        cycle_phases::all_in_heap(c, buffers),
        cycle_soundness::marking_invariant(c, s, base),
        forall|o: ObjectReference| #[trigger] c.heap.contains(o) ==> base(o.granule()) >= 1,
        holding(c.heap, s, Seq::empty()),
    ensures
        cycle_soundness::marking_invariant(
            c,
            gc_work::mark_round_of(curr, c, i, s, buffers, visited).s,
            base,
        ),
        holding(
            c.heap,
            gc_work::mark_round_of(curr, c, i, s, buffers, visited).s,
            Seq::empty(),
        ),
{
    let d = gc_work::round_snapshot(c, curr, i);
    let t = (gc_work::visited_pool(curr, i) + 1) as u8;
    let b = cycle_phases::buffers_from(s, buffers, visited);
    assert(cycle_phases::all_in_heap(d, buffers));
    cycle_soundness::invariant_of_round(c, curr, i, s, base);
    cycle_soundness::mark_buffers_keeps_invariant(d, t, b, base);
    cycle_soundness::invariant_of_round(
        c,
        curr,
        i,
        cycle_phases::mark_buffers(d, t, b).s,
        base,
    );
    mark_buffers_holds(d, t, b, base);
}

/// What the collection of all pools leaves is held.
///
/// Where every object has a strong reference or is a candidate, and no more
/// strong references than references, that is so afterwards of every object that
/// was not reclaimed.
pub proof fn full_collection_leaves_all_held(
    lxr: Lxr,
    heap: Heap,
    d: (Seq<Seq<ObjectReference>>, Seq<Seq<ObjectReference>>, Seq<Seq<ObjectReference>>),
    stats: CycleCollectorStats,
    base: spec_fn(usize) -> nat,
    o: ObjectReference,
)
    requires
        lxr.curr_vec < 3,
        cycle_reclaim::ready(lxr.snapshot(heap), gc_work::unreported(lxr.cycle_state()), base),
        cycle_phases::all_in_heap(lxr.snapshot(heap), d.0),
        cycle_phases::all_in_heap(lxr.snapshot(heap), d.1),
        cycle_phases::all_in_heap(lxr.snapshot(heap), d.2),
        all_held(heap, lxr.cycle_state()),
        heap.contains(o),
    ensures
        ({
            let f = gc_work::collect_all_pools(lxr, heap, d, stats).s;
            !f.freed.contains(o.addr) ==> f.is_held(o) && f.strong[o.granule()] <= f.counts.count(
                o.granule(),
            )
        }),
{
    let c = lxr.snapshot(heap);
    let s = gc_work::unreported(lxr.cycle_state());
    let m = cycle_reclaim::marked_all_pools(lxr, heap, d, stats);
    assert(holding(heap, m.0, Seq::empty())) by {
        let curr = lxr.curr_vec;
        let m0 = gc_work::mark_round_of(curr, c, 0, s, d.0, stats.objects_in_mark);
        let m1 = gc_work::mark_round_of(curr, c, 1, m0.s, d.1, m0.visited);
        assert(all_held(heap, s)) by {
            assert forall|x: ObjectReference| #[trigger] heap.contains(x) implies s.is_held(x)
                && s.strong[x.granule()] <= s.counts.count(x.granule()) by {
                assert(lxr.cycle_state().is_held(x));
            }
        }
        cycle_soundness::start_invariant(c, s, base);
        round_holds(curr, c, 0, s, d.0, stats.objects_in_mark, base);
        round_holds(curr, c, 1, m0.s, d.1, m0.visited, base);
        round_holds(curr, c, 2, m1.s, d.2, m1.visited, base);
    }
    cycle_reclaim::all_pools_are_ready_to_scan(lxr, heap, d, stats, base);
    all_held_after_mark(c, m, stats, base);
    cycle_reclaim::full_collection_reclaims_only_garbage(lxr, heap, d, stats, base);
    assert(!Seq::<ObjectReference>::empty().contains(o));
}

} // verus!
