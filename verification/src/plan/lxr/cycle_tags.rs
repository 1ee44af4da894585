//! A candidate is in the pool whose tag it carries.

use crate::plan::lxr::buffer;
use crate::plan::lxr::buffer::PoolView;
use crate::plan::lxr::cycle_complete;
use crate::plan::lxr::cycle_grey;
use crate::plan::lxr::cycle_laws;
use crate::plan::lxr::cycle_model;
use crate::plan::lxr::cycle_model::{CycleState, Snapshot, Walk};
use crate::plan::lxr::cycle_phases;
use crate::plan::lxr::cycle_phases::BufferWalk;
use crate::plan::lxr::cycle_reclaim;
use crate::plan::lxr::cycle_soundness;
use crate::plan::lxr::gc_work;
use crate::plan::lxr::gc_work::CycleCollector;
use crate::plan::lxr::global::Lxr;
use crate::util::address::ObjectReference;
use crate::util::rc::{BLACK_IN_STACK, GREY, WHITE};
use crate::vm::heap::Heap;
use vstd::prelude::*;

verus! {

/// Whether every object has the tag that it had, or none, or is one of `out` and
/// has the tag `tag`.
pub open spec fn retagged(
    heap: Heap,
    old: CycleState,
    new: CycleState,
    tag: u8,
    out: Seq<ObjectReference>,
) -> bool {
    forall|o: ObjectReference| #[trigger]
        heap.contains(o) ==> {
            let t = new.cand[o.granule()];
            t == 0 || t == old.cand[o.granule()] || t == tag && out.contains(o)
        }
}

/// What is in a sequence is in a longer one that begins with it.
proof fn prefix_contains(a: Seq<ObjectReference>, b: Seq<ObjectReference>, x: ObjectReference)
    requires
        a.len() <= b.len(),
        forall|i: int| 0 <= i < a.len() ==> #[trigger] b[i] == a[i],
        a.contains(x),
    ensures
        b.contains(x),
{
    let i = choose|i: int| 0 <= i < a.len() && a[i] == x;
    assert(b[i] == x);
}

/// A step of trial deletion tags what it puts off, and nothing else.
proof fn mark_step_retags(c: Snapshot, w: Walk)
    requires
        c.wf(),
        c.holds(w.stack),
        w.stack.len() > 0,
    ensures
        retagged(
            c.heap,
            w.s,
            cycle_model::mark_step(c, w).s,
            c.tag,
            cycle_model::mark_step(c, w).out,
        ),
{
    let heap = c.heap;
    let o = w.stack.last();
    let v = cycle_model::mark_step(c, w);
    let xs = cycle_model::refs(heap, c.unlogged_slots(o));
    let s1 = w.s.paint(o, GREY);
    let u = cycle_model::take_away(s1, xs).paint(o, BLACK_IN_STACK);
    cycle_model::pop_in_heap(c, w.stack);
    cycle_model::take_away_frame(s1, xs);
    if cycle_model::markable(w.s, o) && c.has_logged_slot(o) {
        cycle_model::first_logged_bounds(c.unlog, heap.slots(o), 0);
        assert forall|j: int|
            0 <= j < c.unlogged_slots(o).len() implies heap.fields@.dom().contains(
            #[trigger] c.unlogged_slots(o)[j],
        ) by {
            assert(heap.objects@[heap.place(o)].slots@[j] == c.unlogged_slots(o)[j]);
        }
        cycle_model::refs_in_heap(c, c.unlogged_slots(o));
        cycle_soundness::give_back_tags(u, xs, c.tag);
        let n = w.out.len() as int;
        assert forall|x: ObjectReference| #[trigger] heap.contains(x) implies {
            let t = v.s.cand[x.granule()];
            t == 0 || t == w.s.cand[x.granule()] || t == c.tag && v.out.contains(x)
        } by {
            if x.granule() == o.granule() {
                assert(x == o);
                assert(v.out[v.out.len() - 1] == o);
            } else if cycle_laws::occurrences(xs, x.granule()) == 0 {
                cycle_complete::give_back_elsewhere(u, xs, c.tag, x.granule());
            } else {
                cycle_reclaim::occurs_is_contained(heap, xs, x);
                let i = choose|i: int| 0 <= i < xs.len() && xs[i] == x;
                assert(xs.reverse()[xs.len() - 1 - i] == x);
                assert(v.out[n + xs.len() - 1 - i] == x);
            }
        }
    }
}

/// Trial deletion tags what it puts off, and nothing else.
proof fn mark_all_retags(c: Snapshot, w: Walk)
    requires
        c.wf(),
        c.holds(w.stack),
    ensures
        retagged(
            c.heap,
            w.s,
            cycle_model::mark_all(c, w).s,
            c.tag,
            cycle_model::mark_all(c, w).out,
        ),
    decreases
            cycle_model::count_all(c.heap, cycle_model::unmarked(w.s)),
            w.stack.len(),
{
    if w.stack.len() > 0 {
        let v = cycle_model::mark_step(c, w);
        let f = cycle_model::mark_all(c, w);
        cycle_model::mark_step_progress(c, w);
        mark_step_retags(c, w);
        mark_all_retags(c, v);
        cycle_soundness::mark_all_keeps_out(c, v);
        retagged_again(c.heap, w.s, v.s, f.s, c.tag, v.out, f.out);
    }
}

/// Tagging twice is tagging.
proof fn retagged_again(
    heap: Heap,
    a: CycleState,
    b: CycleState,
    c: CycleState,
    tag: u8,
    out: Seq<ObjectReference>,
    more: Seq<ObjectReference>,
)
    requires
        retagged(heap, a, b, tag, out),
        retagged(heap, b, c, tag, more),
        out.len() <= more.len(),
        forall|i: int| 0 <= i < out.len() ==> #[trigger] more[i] == out[i],
    ensures
        retagged(heap, a, c, tag, more),
{
    assert forall|o: ObjectReference| #[trigger] heap.contains(o) implies {
        let t = c.cand[o.granule()];
        t == 0 || t == a.cand[o.granule()] || t == tag && more.contains(o)
    } by {
        if out.contains(o) {
            prefix_contains(out, more, o);
        }
    }
}

/// Whether every object that carries the tag of the pool is still to be marked
/// from, or is one of `exempt`.
pub open spec fn tagged_pending(
    heap: Heap,
    vec_index: u8,
    b: BufferWalk,
    exempt: Seq<ObjectReference>,
) -> bool {
    forall|x: ObjectReference| #[trigger]
        heap.contains(x) && b.s.cand[x.granule()] == vec_index ==> b.pending().contains(x)
            || exempt.contains(x)
}

/// The mark phase over one pool tags what it puts off, and leaves the tag of the
/// pool to nothing but what is exempt.
proof fn mark_buffers_retags(
    c: Snapshot,
    vec_index: u8,
    b: BufferWalk,
    exempt: Seq<ObjectReference>,
)
    requires
        c.wf(),
        b.wf(),
        vec_index != 0,
        vec_index != c.tag,
        cycle_phases::all_in_heap(c, b.buffers),
        tagged_pending(c.heap, vec_index, b, exempt),
    ensures
        ({
            let f = cycle_phases::mark_buffers(c, vec_index, b);
            &&& retagged(c.heap, b.s, f.s, c.tag, f.out)
            &&& f.out.len() >= b.out.len()
            &&& forall|i: int| 0 <= i < b.out.len() ==> #[trigger] f.out[i] == b.out[i]
            &&& forall|x: ObjectReference| #[trigger]
                c.heap.contains(x) && f.s.cand[x.granule()] == vec_index ==> exempt.contains(x)
        }),
    decreases b.pending().len(),
{
    let heap = c.heap;
    let (bi, ei) = buffer::seek(b.buffers, b.bi, b.ei);
    buffer::seek_skips_nothing(b.buffers, b.bi, b.ei);
    cycle_phases::seek_goes_forward(b.buffers, b.bi, b.ei);
    if bi < b.buffers.len() {
        cycle_phases::mark_buffer_step_progress(c, vec_index, b);
        let o = b.buffers[bi][ei];
        let v = cycle_phases::mark_buffer_step(c, vec_index, b);
        let f = cycle_phases::mark_buffers(c, vec_index, b);
        assert forall|x: ObjectReference| #[trigger]
            b.pending().contains(x) && x != o implies v.pending().contains(x) by {
            let i = choose|i: int| 0 <= i < b.pending().len() && b.pending()[i] == x;
            let after = buffer::pending(b.buffers, bi, ei + 1);
            assert(after[i - 1] == x);
            if !cycle_phases::should_mark(b.s, o, vec_index) {
                buffer::removal_skips_nothing(b.buffers, bi, ei);
                cycle_complete::same_elements(after, v.pending(), x);
            }
        }
        if cycle_phases::should_mark(b.s, o, vec_index) {
            let w = cycle_model::walk_from(b.s.tagged(o, 0), o, b.visited, 0);
            let m = cycle_model::mark_all(c, w);
            assert(c.holds(w.stack));
            mark_all_retags(c, w);
            assert forall|x: ObjectReference| #[trigger] heap.contains(x) implies {
                let t = v.s.cand[x.granule()];
                &&& t == 0 || t == b.s.cand[x.granule()] || t == c.tag && v.out.contains(x)
                &&& x == o ==> t != vec_index
            } by {
                if m.out.contains(x) {
                    let i = choose|i: int| 0 <= i < m.out.len() && m.out[i] == x;
                    assert(v.out[b.out.len() + i] == x);
                }
                if x.granule() == o.granule() {
                    assert(x == o);
                }
            }
        }
        assert(tagged_pending(heap, vec_index, v, exempt)) by {
            assert forall|x: ObjectReference| #[trigger]
                heap.contains(x) && v.s.cand[x.granule()] == vec_index implies v.pending().contains(
                x,
            ) || exempt.contains(x) by {
                assert(b.s.cand[x.granule()] == vec_index);
            }
        }
        mark_buffers_retags(c, vec_index, v, exempt);
        retagged_again(heap, b.s, v.s, f.s, c.tag, v.out, f.out);
        assert forall|i: int| 0 <= i < b.out.len() implies #[trigger] f.out[i] == b.out[i] by {
            assert(v.out[i] == b.out[i]);
        }
    }
}

/// Dropping references tags what loses its last strong one, and nothing else.
proof fn drop_refs_retags(heap: Heap, u: Walk, xs: Seq<ObjectReference>, tag: u8)
    requires
        heap.wf(),
        forall|i: int| 0 <= i < xs.len() ==> heap.contains(#[trigger] xs[i]),
    ensures
        ({
            let v = cycle_model::drop_refs(u, xs, tag);
            &&& retagged(heap, u.s, v.s, tag, v.out)
            &&& v.out.len() >= u.out.len()
            &&& forall|i: int| 0 <= i < u.out.len() ==> #[trigger] v.out[i] == u.out[i]
        }),
    decreases xs.len(),
{
    if xs.len() > 0 {
        let p = xs.drop_last();
        let x = xs.last();
        assert(heap.contains(xs[xs.len() - 1]));
        assert forall|i: int| 0 <= i < p.len() implies heap.contains(#[trigger] p[i]) by {
            assert(p[i] == xs[i]);
        }
        drop_refs_retags(heap, u, p, tag);
        let v = cycle_model::drop_refs(u, p, tag);
        let f = cycle_model::drop_refs(u, xs, tag);
        assert(retagged(heap, v.s, f.s, tag, f.out)) by {
            assert forall|o: ObjectReference| #[trigger] heap.contains(o) implies {
                let t = f.s.cand[o.granule()];
                t == 0 || t == v.s.cand[o.granule()] || t == tag && f.out.contains(o)
            } by {
                if f.out.len() > v.out.len() {
                    assert(f.out[f.out.len() - 1] == x);
                    if o.granule() == x.granule() {
                        assert(o == x);
                    }
                }
            }
        }
        retagged_again(heap, u.s, v.s, f.s, tag, v.out, f.out);
    }
}

/// `collect_blacks` tags what loses its last strong reference, and nothing else.
proof fn collect_blacks_retags(c: Snapshot, w: Walk)
    requires
        c.wf(),
        c.holds(w.stack),
    ensures
        ({
            let f = cycle_model::collect_blacks_all(c, w);
            &&& retagged(c.heap, w.s, f.s, c.tag, f.out)
            &&& f.out.len() >= w.out.len()
            &&& forall|i: int| 0 <= i < w.out.len() ==> #[trigger] f.out[i] == w.out[i]
        }),
    decreases
            cycle_model::count_all(c.heap, cycle_model::referenced(w.s)),
            w.stack.len(),
{
    let heap = c.heap;
    if w.stack.len() > 0 {
        let o = w.stack.last();
        let v = cycle_model::collect_blacks_step(c, w);
        let f = cycle_model::collect_blacks_all(c, w);
        let xs = cycle_grey::children(heap, o);
        let u = Walk { stack: w.stack.drop_last(), visited: w.visited.wrapping_add(1), ..w };
        cycle_model::collect_blacks_step_progress(c, w);
        cycle_model::pop_in_heap(c, w.stack);
        cycle_model::children_in_heap(c, o);
        drop_refs_retags(heap, u, xs, c.tag);
        assert(retagged(heap, w.s, v.s, c.tag, v.out)) by {
            assert forall|x: ObjectReference| #[trigger] heap.contains(x) implies {
                let t = v.s.cand[x.granule()];
                t == 0 || t == w.s.cand[x.granule()] || t == c.tag && v.out.contains(x)
            } by {}
        }
        collect_blacks_retags(c, v);
        retagged_again(heap, w.s, v.s, f.s, c.tag, v.out, f.out);
        assert forall|i: int| 0 <= i < w.out.len() implies #[trigger] f.out[i] == w.out[i] by {
            assert(v.out[i] == w.out[i]);
        }
    }
}

/// The collection from one candidate tags what loses its last strong reference,
/// and nothing else.
proof fn collect_whites_retags(c: Snapshot, w: Walk)
    requires
        c.wf(),
        c.holds(w.stack),
    ensures
        ({
            let f = cycle_model::collect_whites_all(c, w);
            &&& retagged(c.heap, w.s, f.s, c.tag, f.out)
            &&& f.out.len() >= w.out.len()
            &&& forall|i: int| 0 <= i < w.out.len() ==> #[trigger] f.out[i] == w.out[i]
        }),
    decreases cycle_model::count_all(c.heap, cycle_model::white(w.s)), w.stack.len(),
{
    let heap = c.heap;
    if w.stack.len() > 0 {
        let o = w.stack.last();
        let v = cycle_model::collect_whites_step(c, w);
        let f = cycle_model::collect_whites_all(c, w);
        cycle_model::collect_whites_step_progress(c, w);
        cycle_model::pop_in_heap(c, w.stack);
        if w.s.color_of(o) != WHITE && w.s.color_of(o) == BLACK_IN_STACK
            && w.s.counts.rc[o.granule()] == 1 {
            let start = cycle_model::walk_from(w.s, o, w.visited.wrapping_add(1), 0);
            let b = cycle_model::collect_blacks_all(c, start);
            assert(c.holds(start.stack));
            collect_blacks_retags(c, start);
            assert forall|x: ObjectReference| #[trigger] heap.contains(x) implies {
                let t = v.s.cand[x.granule()];
                t == 0 || t == w.s.cand[x.granule()] || t == c.tag && v.out.contains(x)
            } by {
                if b.out.contains(x) {
                    let i = choose|i: int| 0 <= i < b.out.len() && b.out[i] == x;
                    assert(v.out[w.out.len() + i] == x);
                }
            }
        }
        assert(retagged(heap, w.s, v.s, c.tag, v.out));
        collect_whites_retags(c, v);
        retagged_again(heap, w.s, v.s, f.s, c.tag, v.out, f.out);
        assert forall|i: int| 0 <= i < w.out.len() implies #[trigger] f.out[i] == w.out[i] by {
            assert(v.out[i] == w.out[i]);
        }
    }
}

/// The collect phase tags what loses its last strong reference, and nothing
/// else.
proof fn collect_each_retags(c: Snapshot, w: Walk, xs: Seq<ObjectReference>)
    requires
        c.wf(),
        c.holds(xs),
    ensures
        retagged(
            c.heap,
            w.s,
            cycle_phases::collect_each(c, w, xs).s,
            c.tag,
            cycle_phases::collect_each(c, w, xs).out,
        ),
    decreases xs.len(),
{
    let heap = c.heap;
    if xs.len() > 0 {
        let p = xs.drop_last();
        cycle_model::pop_in_heap(c, xs);
        collect_each_retags(c, w, p);
        let v = cycle_phases::collect_each(c, w, p);
        let start = cycle_model::walk_from(v.s, xs.last(), v.visited, 0);
        let b = cycle_model::collect_whites_all(c, start);
        let f = cycle_phases::collect_each(c, w, xs);
        assert(c.holds(start.stack));
        collect_whites_retags(c, start);
        assert(retagged(heap, v.s, f.s, c.tag, f.out)) by {
            assert forall|x: ObjectReference| #[trigger] heap.contains(x) implies {
                let t = f.s.cand[x.granule()];
                t == 0 || t == v.s.cand[x.granule()] || t == c.tag && f.out.contains(x)
            } by {
                if b.out.contains(x) {
                    let i = choose|i: int| 0 <= i < b.out.len() && b.out[i] == x;
                    assert(f.out[v.out.len() + i] == x);
                }
            }
        }
        retagged_again(heap, w.s, v.s, f.s, c.tag, v.out, f.out);
    }
}

/// Whether every candidate is in the pool whose tag it carries.
pub open spec fn candidates_listed(heap: Heap, lxr: Lxr) -> bool {
    forall|o: ObjectReference| #[trigger]
        heap.contains(o) && lxr.cycle_state().cand[o.granule()] != 0 ==> {
            let t = lxr.cycle_state().cand[o.granule()];
            &&& 1 <= t <= 3
            &&& gc_work::drained(lxr.candidate_pools@[t - 1]@).flatten().contains(o)
        }
}

/// A pool that was filled has what it had and what was pushed.
proof fn filled_pool_has(
    pool: PoolView<ObjectReference>,
    xs: Seq<ObjectReference>,
    x: ObjectReference,
)
    requires
        pool.wf(),
        gc_work::drained(pool).flatten().contains(x) || xs.contains(x),
    ensures
        gc_work::drained(gc_work::filled(pool, xs)).flatten().contains(x),
{
    broadcast use vstd::seq_lib::group_to_multiset_ensures;

    let p = pool.acquire();
    let q = p.push_all(xs);
    let f = gc_work::filled(pool, xs);
    filled_pool_is_well_formed(pool, xs);
    buffer::acquire_loses_nothing(pool);
    buffer::push_all_loses_nothing(p, xs);
    buffer::close_loses_nothing(q);
    buffer::final_buffers_hold_everything(pool);
    buffer::final_buffers_hold_everything(f);
    if xs.contains(x) {
        assert(xs.to_multiset().count(x) > 0);
    } else {
        assert(pool.elements().to_multiset().count(x) > 0);
    }
    assert(q.elements().to_multiset().count(x) > 0);
}

/// A pool that was filled is well-formed.
proof fn filled_pool_is_well_formed(pool: PoolView<ObjectReference>, xs: Seq<ObjectReference>)
    requires
        pool.wf(),
    ensures
        gc_work::filled(pool, xs).wf(),
{
    buffer::acquire_loses_nothing(pool);
    buffer::push_all_loses_nothing(pool.acquire(), xs);
    buffer::close_loses_nothing(pool.acquire().push_all(xs));
}

/// The collection of one pool leaves every candidate in the pool whose tag it
/// carries: none is lost as a candidate.
pub proof fn pool_collection_lists_candidates(
    old_cc: CycleCollector,
    new_cc: CycleCollector,
    old: Lxr,
    new: Lxr,
    heap: Heap,
)
    requires
        heap.wf(),
        old.wf(),
        gc_work::pools_ready(old, heap),
        old.snapshot(heap).covers(old.cycle_state().color),
        gc_work::collected_one_pool(old_cc, new_cc, old, new, heap),
        candidates_listed(heap, old),
    ensures
        candidates_listed(heap, new),
{
    let c = old.snapshot(heap);
    let s = gc_work::unreported(old.cycle_state());
    let curr = old.curr_vec as int;
    let next = gc_work::next_pool(old.curr_vec);
    let buffers = gc_work::drained(old.candidate_pools@[next]@);
    let vec_index = (next + 1) as u8;
    let b = cycle_phases::buffers_from(s, buffers, old_cc.stats.objects_in_mark);
    let m = cycle_phases::mark_buffers(c, vec_index, b);
    let left = m.buffers.flatten();
    let w = cycle_phases::carry(
        m.s,
        old_cc.stats.objects_in_scan,
        old_cc.stats.objects_in_scan_black,
    );
    let sc = cycle_phases::scan_each(c, w, left);
    let u = cycle_phases::carry(sc.s, old_cc.stats.objects_in_collect, 0);
    let co = cycle_phases::collect_each(c, u, left);
    let pool = old.candidate_pools@[curr]@;
    assert(c.wf());
    assert(cycle_phases::all_in_heap(c, buffers));
    buffer::pending_from_start(buffers);
    assert(tagged_pending(heap, vec_index, b, Seq::empty())) by {
        assert forall|x: ObjectReference| #[trigger]
            heap.contains(x) && b.s.cand[x.granule()] == vec_index implies b.pending().contains(x)
            || Seq::<ObjectReference>::empty().contains(x) by {
            assert(old.cycle_state().cand[x.granule()] == vec_index);
        }
    }
    mark_buffers_retags(c, vec_index, b, Seq::empty());
    cycle_phases::mark_buffers_covers(c, vec_index, b);
    cycle_phases::flatten_in_heap(c, m.buffers);
    cycle_reclaim::scan_each_reclaims_nothing(c, w, left);
    collect_each_retags(c, u, left);
    let out = m.out + co.out;
    assert forall|o: ObjectReference| #[trigger]
        heap.contains(o) && new.cycle_state().cand[o.granule()] != 0 implies {
        let t = new.cycle_state().cand[o.granule()];
        &&& 1 <= t <= 3
        &&& gc_work::drained(new.candidate_pools@[t - 1]@).flatten().contains(o)
    } by {
        let t = new.cycle_state().cand[o.granule()];
        if co.out.contains(o) && t == c.tag {
            let i = choose|i: int| 0 <= i < co.out.len() && co.out[i] == o;
            assert(out[m.out.len() + i] == o);
            filled_pool_has(pool, out, o);
        } else if m.out.contains(o) && t == c.tag {
            let i = choose|i: int| 0 <= i < m.out.len() && m.out[i] == o;
            assert(out[i] == o);
            filled_pool_has(pool, out, o);
        } else {
            assert(old.cycle_state().cand[o.granule()] == t);
            assert(!Seq::<ObjectReference>::empty().contains(o));
            assert(t != vec_index);
            if t == curr + 1 {
                filled_pool_has(pool, out, o);
            }
        }
    }
}

/// One round of marking tags what it puts off, and leaves the tag of its pool to
/// nothing but what is exempt.
proof fn round_retags(
    curr: u8,
    c: Snapshot,
    i: int,
    s: CycleState,
    buffers: Seq<Seq<ObjectReference>>,
    visited: usize,
    exempt: Seq<ObjectReference>,
)
    requires
        c.wf(),
        curr < 3,
        0 <= i < 3,
        c.covers(s.color),
        cycle_phases::all_in_heap(c, buffers),
        forall|x: ObjectReference| #[trigger]
            c.heap.contains(x) && s.cand[x.granule()] == gc_work::visited_pool(curr, i) + 1
                ==> buffers.flatten().contains(x) || exempt.contains(x),
    ensures
        ({
            let m = gc_work::mark_round_of(curr, c, i, s, buffers, visited);
            &&& retagged(c.heap, s, m.s, (gc_work::filled_pool(curr, i) + 1) as u8, m.out)
            &&& c.covers(m.s.color)
            &&& c.holds(m.buffers.flatten())
            &&& forall|x: ObjectReference| #[trigger]
                c.heap.contains(x) && m.s.cand[x.granule()] == gc_work::visited_pool(curr, i) + 1
                    ==> exempt.contains(x)
        }),
{
    let d = gc_work::round_snapshot(c, curr, i);
    let t = (gc_work::visited_pool(curr, i) + 1) as u8;
    let b = cycle_phases::buffers_from(s, buffers, visited);
    let m = cycle_phases::mark_buffers(d, t, b);
    assert(d.wf());
    assert(d.covers(s.color));
    assert(cycle_phases::all_in_heap(d, buffers));
    buffer::pending_from_start(buffers);
    mark_buffers_retags(d, t, b, exempt);
    cycle_phases::mark_buffers_covers(d, t, b);
    assert(cycle_phases::all_in_heap(c, m.buffers));
    cycle_phases::flatten_in_heap(c, m.buffers);
}

/// The tags after the mark phase over all pools: what has one got it when it was
/// put off, and is filed with the pool of that tag.
proof fn rounds_retag(
    curr: u8,
    c: Snapshot,
    s: CycleState,
    d: (Seq<Seq<ObjectReference>>, Seq<Seq<ObjectReference>>, Seq<Seq<ObjectReference>>),
    visited: usize,
    o: ObjectReference,
)
    requires
        c.wf(),
        curr < 3,
        c.covers(s.color),
        cycle_phases::all_in_heap(c, d.0),
        cycle_phases::all_in_heap(c, d.1),
        cycle_phases::all_in_heap(c, d.2),
        forall|x: ObjectReference| #[trigger]
            c.heap.contains(x) ==> cycle_reclaim::listed(curr, d, s.cand[x.granule()], x),
        c.heap.contains(o),
    ensures
        ({
            let (m0, m1, m2) = gc_work::mark_rounds(curr, c, s, d, visited);
            let t = m2.s.cand[o.granule()];
            &&& c.covers(m2.s.color)
            &&& c.holds(m0.buffers.flatten() + m1.buffers.flatten() + m2.buffers.flatten())
            &&& {
                ||| t == 0
                ||| t == gc_work::filled_pool(curr, 0) + 1 && m0.out.contains(o)
                ||| t == gc_work::filled_pool(curr, 1) + 1 && m1.out.contains(o)
                ||| t == gc_work::filled_pool(curr, 2) + 1 && m2.out.contains(o)
            }
        }),
{
    let m0 = gc_work::mark_round_of(curr, c, 0, s, d.0, visited);
    let m1 = gc_work::mark_round_of(curr, c, 1, m0.s, d.1, m0.visited);
    let m2 = gc_work::mark_round_of(curr, c, 2, m1.s, d.2, m1.visited);
    let none = Seq::<ObjectReference>::empty();
    assert forall|x: ObjectReference| !none.contains(x) by {}
    round_retags(curr, c, 0, s, d.0, visited, none);
    round_retags(curr, c, 1, m0.s, d.1, m0.visited, none);
    round_retags(curr, c, 2, m1.s, d.2, m1.visited, m0.out);
    cycle_model::concat_in_heap(c, m0.buffers.flatten(), m1.buffers.flatten());
    cycle_model::concat_in_heap(
        c,
        m0.buffers.flatten() + m1.buffers.flatten(),
        m2.buffers.flatten(),
    );
}

/// The collection of all pools leaves every candidate in the pool whose tag it
/// carries: none is lost as a candidate.
pub proof fn full_collection_lists_candidates(
    old_cc: CycleCollector,
    new_cc: CycleCollector,
    old: Lxr,
    new: Lxr,
    heap: Heap,
)
    requires
        heap.wf(),
        old.wf(),
        gc_work::pools_ready(old, heap),
        old.snapshot(heap).covers(old.cycle_state().color),
        gc_work::collected_all_pools(old_cc, new_cc, old, new, heap),
        candidates_listed(heap, old),
    ensures
        candidates_listed(heap, new),
{
    let c = old.snapshot(heap);
    let s = gc_work::unreported(old.cycle_state());
    let curr = old.curr_vec;
    let d = gc_work::all_drained(old);
    let stats = old_cc.stats;
    let (m0, m1, m2) = gc_work::mark_rounds(curr, c, s, d, stats.objects_in_mark);
    let left = m0.buffers.flatten() + m1.buffers.flatten() + m2.buffers.flatten();
    let w = cycle_phases::carry(m2.s, stats.objects_in_scan, stats.objects_in_scan_black);
    let sc = cycle_phases::scan_each(c, w, left);
    let u = cycle_phases::carry(sc.s, stats.objects_in_collect, 0);
    let co = cycle_phases::collect_each(c, u, left);
    let pools = old.candidate_pools@;
    let f0 = gc_work::filled_pool(curr, 0);
    let f1 = gc_work::filled_pool(curr, 1);
    let f2 = gc_work::filled_pool(curr, 2);
    assert(c.wf());
    assert(pools[f0]@.wf() && pools[f1]@.wf() && pools[f2]@.wf());
    assert(cycle_phases::all_in_heap(c, d.0) && cycle_phases::all_in_heap(c, d.1)
        && cycle_phases::all_in_heap(c, d.2));
    assert forall|x: ObjectReference| #[trigger] c.heap.contains(x) implies cycle_reclaim::listed(
        curr,
        d,
        s.cand[x.granule()],
        x,
    ) by {
        assert(old.cycle_state().cand[x.granule()] == s.cand[x.granule()]);
    }
    assert forall|o: ObjectReference| #[trigger]
        heap.contains(o) && new.cycle_state().cand[o.granule()] != 0 implies {
        let t = new.cycle_state().cand[o.granule()];
        &&& 1 <= t <= 3
        &&& gc_work::drained(new.candidate_pools@[t - 1]@).flatten().contains(o)
    } by {
        let t = new.cycle_state().cand[o.granule()];
        rounds_retag(curr, c, s, d, stats.objects_in_mark, o);
        cycle_reclaim::scan_each_reclaims_nothing(c, w, left);
        collect_each_retags(c, u, left);
        let e0 = gc_work::emptied(pools[f0]@);
        let g0 = gc_work::filled(e0, m0.out);
        filled_pool_is_well_formed(e0, m0.out);
        if t == c.tag && co.out.contains(o) {
            filled_pool_has(g0, co.out, o);
        } else {
            assert(m2.s.cand[o.granule()] == t);
            if t == f0 + 1 && m0.out.contains(o) {
                filled_pool_has(e0, m0.out, o);
                filled_pool_has(g0, co.out, o);
            } else if t == f1 + 1 && m1.out.contains(o) {
                filled_pool_has(gc_work::emptied(pools[f1]@), m1.out, o);
            } else {
                filled_pool_has(gc_work::emptied(pools[f2]@), m2.out, o);
            }
        }
    }
}

} // verus!
