//! Trial deletion finds the garbage that candidates reach.

use crate::plan::lxr::buffer;
use crate::plan::lxr::cycle_grey;
use crate::plan::lxr::cycle_laws;
use crate::plan::lxr::cycle_model;
use crate::plan::lxr::cycle_model::{CycleState, Snapshot, Walk};
use crate::plan::lxr::cycle_phases;
use crate::plan::lxr::cycle_phases::BufferWalk;
use crate::plan::lxr::cycle_reclaim;
use crate::plan::lxr::cycle_soundness;
use crate::util::address::ObjectReference;
use crate::util::rc::{BLACK_IN_STACK, GREY};
use crate::vm::heap::Heap;
use vstd::prelude::*;

verus! {

/// Whether only objects in `z` refer to an object in `z`.
pub open spec fn closed_to_referrers(heap: Heap, z: spec_fn(usize) -> bool) -> bool {
    forall|p: ObjectReference, o: ObjectReference|
        #![trigger cycle_grey::children(heap, p).contains(o)]
        heap.contains(p) && heap.contains(o) && cycle_grey::children(heap, p).contains(o) && z(
            o.granule(),
        ) ==> z(p.granule())
}

/// Whether the objects in `z` are garbage that trial deletion may go into: no
/// reference to them comes from outside, none is strong, none of them has a
/// logged slot, and only objects in `z` refer to them.
pub open spec fn garbage(
    c: Snapshot,
    s: CycleState,
    base: spec_fn(usize) -> nat,
    z: spec_fn(usize) -> bool,
) -> bool {
    &&& forall|o: ObjectReference| #[trigger]
        c.heap.contains(o) && z(o.granule()) ==> base(o.granule()) == 1 && s.strong[o.granule()]
            == 0 && !c.has_logged_slot(o)
    &&& closed_to_referrers(c.heap, z)
}

/// Whether `path` leads along references from object to object of `z`.
pub open spec fn path_within(
    heap: Heap,
    z: spec_fn(usize) -> bool,
    path: Seq<ObjectReference>,
) -> bool {
    &&& path.len() > 0
    &&& forall|i: int|
        0 <= i < path.len() ==> heap.contains(#[trigger] path[i]) && z(path[i].granule())
    &&& forall|i: int|
        0 < i < path.len() ==> cycle_grey::children(heap, path[i - 1]).contains(#[trigger] path[i])
}

/// Whether `path` leads inside `z` from a candidate to `o`.
pub open spec fn leads_from_candidate(
    heap: Heap,
    z: spec_fn(usize) -> bool,
    cand: Map<usize, u8>,
    o: ObjectReference,
    path: Seq<ObjectReference>,
) -> bool {
    &&& path_within(heap, z, path)
    &&& path.last() == o
    &&& cand[path[0].granule()] != 0
}

/// Whether `o` can be reached inside `z` from a candidate.
pub open spec fn found_from_candidate(
    heap: Heap,
    z: spec_fn(usize) -> bool,
    cand: Map<usize, u8>,
    o: ObjectReference,
) -> bool {
    exists|path: Seq<ObjectReference>| leads_from_candidate(heap, z, cand, o, path)
}

/// Whether every object in `z` can be reached inside `z` from a candidate.
pub open spec fn all_found(heap: Heap, z: spec_fn(usize) -> bool, cand: Map<usize, u8>) -> bool {
    forall|o: ObjectReference| #[trigger]
        heap.contains(o) && z(o.granule()) ==> found_from_candidate(heap, z, cand, o)
}

/// Whether trial deletion may go into the objects in `z`, and only objects in
/// `z` refer to them.
pub open spec fn open_to_deletion(c: Snapshot, z: spec_fn(usize) -> bool) -> bool {
    &&& forall|o: ObjectReference| #[trigger]
        c.heap.contains(o) && z(o.granule()) ==> !c.has_logged_slot(o)
    &&& closed_to_referrers(c.heap, z)
}

/// What trial deletion keeps of the objects in `z`, whose tags were `tags` at
/// first.
///
/// None has a strong count, and each has the tag that it had or none. One that
/// has lost its tag is not black or still to be visited. What an object in `z`
/// refers to that is not black is not black either, or a candidate, or still to
/// be visited.
pub open spec fn deleting(
    heap: Heap,
    z: spec_fn(usize) -> bool,
    tags: Map<usize, u8>,
    s: CycleState,
    stack: Seq<ObjectReference>,
) -> bool {
    &&& forall|x: ObjectReference| #[trigger]
        heap.contains(x) && z(x.granule()) ==> {
            &&& s.strong[x.granule()] == 0
            &&& s.cand[x.granule()] == 0 || s.cand[x.granule()] == tags[x.granule()]
            &&& s.cand[x.granule()] == 0 && tags[x.granule()] != 0 ==> !s.is_black(x)
                || stack.contains(x)
        }
    &&& forall|p: ObjectReference, x: ObjectReference|
        #![trigger cycle_grey::children(heap, p).contains(x)]
        heap.contains(p) && heap.contains(x) && z(p.granule()) && z(x.granule()) && !s.is_black(p)
            && cycle_grey::children(heap, p).contains(x) ==> !s.is_black(x) || s.cand[x.granule()]
            != 0 || stack.contains(x)
}

/// Taking references away leaves an object without strong references without.
proof fn take_away_keeps_no_strong(s: CycleState, xs: Seq<ObjectReference>, g: usize)
    requires
        s.strong[g] == 0,
    ensures
        cycle_model::take_away(s, xs).strong[g] == 0,
    decreases xs.len(),
{
    if xs.len() > 0 {
        take_away_keeps_no_strong(s, xs.drop_last(), g);
    }
}

/// Giving references back changes neither the strong count nor the tag of what
/// it gives no reference back to.
pub proof fn give_back_elsewhere(s: CycleState, xs: Seq<ObjectReference>, tag: u8, g: usize)
    requires
        cycle_laws::occurrences(xs, g) == 0,
    ensures
        cycle_model::give_back(s, xs, tag).strong[g] == s.strong[g],
        cycle_model::give_back(s, xs, tag).cand[g] == s.cand[g],
    decreases xs.len(),
{
    if xs.len() > 0 {
        let x = xs.last();
        let t = s.inc(x).tagged(x, tag);
        let u = if t.is_black(x) {
            t
        } else {
            t.strong_dec(x)
        };
        give_back_elsewhere(u, xs.drop_last(), tag, g);
    }
}

/// An object outside `z` refers to none in `z`, also before its first logged
/// slot.
proof fn no_refs_into(c: Snapshot, z: spec_fn(usize) -> bool, o: ObjectReference, x: ObjectReference)
    requires
        c.wf(),
        closed_to_referrers(c.heap, z),
        c.heap.contains(o),
        !z(o.granule()),
        c.heap.contains(x),
        z(x.granule()),
    ensures
        cycle_laws::occurrences(cycle_grey::children(c.heap, o), x.granule()) == 0,
        cycle_laws::occurrences(cycle_model::refs(c.heap, c.unlogged_slots(o)), x.granule()) == 0,
{
    let xs = cycle_grey::children(c.heap, o);
    cycle_model::children_in_heap(c, o);
    if cycle_laws::occurrences(xs, x.granule()) > 0 {
        cycle_reclaim::occurs_is_contained(c.heap, xs, x);
    }
    cycle_model::first_logged_bounds(c.unlog, c.heap.slots(o), 0);
    cycle_laws::prefix_occurrences(
        c.heap,
        c.heap.slots(o),
        cycle_model::first_logged(c.unlog, c.heap.slots(o), 0),
        x.granule(),
    );
}

/// A step of trial deletion keeps what it has to keep of the objects in `z`, and
/// their tags.
proof fn mark_step_finds(
    c: Snapshot,
    w: Walk,
    z: spec_fn(usize) -> bool,
    tags: Map<usize, u8>,
)
    requires
        c.wf(),
        c.holds(w.stack),
        w.stack.len() > 0,
        open_to_deletion(c, z),
        deleting(c.heap, z, tags, w.s, w.stack),
    ensures
        deleting(
            c.heap,
            z,
            tags,
            cycle_model::mark_step(c, w).s,
            cycle_model::mark_step(c, w).stack,
        ),
        forall|x: ObjectReference| #[trigger]
            c.heap.contains(x) && z(x.granule()) ==> cycle_model::mark_step(
                c,
                w,
            ).s.cand[x.granule()] == w.s.cand[x.granule()],
{
    let heap = c.heap;
    let o = w.stack.last();
    let v = cycle_model::mark_step(c, w);
    let rest = w.stack.drop_last();
    let xs = cycle_model::refs(heap, c.unlogged_slots(o));
    let s1 = w.s.paint(o, GREY);
    let t = cycle_model::take_away(s1, xs);
    cycle_model::pop_in_heap(c, w.stack);
    cycle_model::take_away_frame(s1, xs);
    cycle_model::give_back_frame(t.paint(o, BLACK_IN_STACK), xs, c.tag);
    // What is on the stack stays there, but for the object that is visited.
    assert forall|x: ObjectReference| #[trigger] w.stack.contains(x) && x != o implies v.stack.contains(
        x,
    ) by {
        let i = choose|i: int| 0 <= i < w.stack.len() && w.stack[i] == x;
        assert(i < rest.len());
        assert(v.stack[i] == x);
    }
    assert forall|x: ObjectReference| #[trigger] heap.contains(x) && z(x.granule()) implies {
        &&& v.s.strong[x.granule()] == 0
        &&& v.s.cand[x.granule()] == w.s.cand[x.granule()]
        &&& x.granule() == o.granule() ==> x == o
        &&& x != o ==> v.s.is_black(x) == w.s.is_black(x)
        &&& x == o && w.s.cand[x.granule()] == 0 ==> !v.s.is_black(x)
    } by {
        take_away_keeps_no_strong(s1, xs, x.granule());
        if c.has_logged_slot(o) {
            if z(o.granule()) {
                assert(heap.contains(o));
            }
            no_refs_into(c, z, o, x);
            give_back_elsewhere(t.paint(o, BLACK_IN_STACK), xs, c.tag, x.granule());
        }
    }
    assert forall|x: ObjectReference| #[trigger] heap.contains(x) && z(x.granule()) implies {
        &&& v.s.strong[x.granule()] == 0
        &&& v.s.cand[x.granule()] == 0 || v.s.cand[x.granule()] == tags[x.granule()]
        &&& v.s.cand[x.granule()] == 0 && tags[x.granule()] != 0 ==> !v.s.is_black(x)
            || v.stack.contains(x)
    } by {
        if v.s.cand[x.granule()] == 0 && tags[x.granule()] != 0 && w.s.is_black(x) {
            assert(w.stack.contains(x));
        }
    }
    assert forall|p: ObjectReference, x: ObjectReference|
        #![trigger cycle_grey::children(heap, p).contains(x)]
        heap.contains(p) && heap.contains(x) && z(p.granule()) && z(x.granule()) && !v.s.is_black(p)
            && cycle_grey::children(heap, p).contains(x) implies !v.s.is_black(x)
        || v.s.cand[x.granule()] != 0 || v.stack.contains(x) by {
        if v.s.is_black(x) && v.s.cand[x.granule()] == 0 {
            assert(x != o);
            if w.s.is_black(p) {
                assert(p == o);
                assert(!c.has_logged_slot(o));
                cycle_model::first_logged_bounds(c.unlog, heap.slots(o), 0);
                assert(c.unlogged_slots(o) =~= heap.slots(o));
                let i = choose|i: int| 0 <= i < xs.len() && xs[i] == x;
                assert(v.stack[rest.len() + i] == x);
            } else {
                assert(w.stack.contains(x));
            }
        }
    }
}

/// Trial deletion keeps what it has to keep of the objects in `z`, and their
/// tags.
proof fn mark_all_finds(c: Snapshot, w: Walk, z: spec_fn(usize) -> bool, tags: Map<usize, u8>)
    requires
        c.wf(),
        c.holds(w.stack),
        open_to_deletion(c, z),
        deleting(c.heap, z, tags, w.s, w.stack),
    ensures
        deleting(c.heap, z, tags, cycle_model::mark_all(c, w).s, Seq::empty()),
        forall|x: ObjectReference| #[trigger]
            c.heap.contains(x) && z(x.granule()) ==> cycle_model::mark_all(
                c,
                w,
            ).s.cand[x.granule()] == w.s.cand[x.granule()],
    decreases
            cycle_model::count_all(c.heap, cycle_model::unmarked(w.s)),
            w.stack.len(),
{
    if w.stack.len() > 0 {
        cycle_model::mark_step_progress(c, w);
        mark_step_finds(c, w, z, tags);
        mark_all_finds(c, cycle_model::mark_step(c, w), z, tags);
    } else {
        assert(w.stack =~= Seq::empty());
    }
}

/// Whether every object in `z` that carries the tag of the pool is still to be
/// marked from.
pub open spec fn tagged_are_pending(
    heap: Heap,
    z: spec_fn(usize) -> bool,
    vec_index: u8,
    b: BufferWalk,
) -> bool {
    forall|x: ObjectReference| #[trigger]
        heap.contains(x) && z(x.granule()) && b.s.cand[x.granule()] == vec_index
            && b.s.cand[x.granule()] != 0 ==> b.pending().contains(x)
}

/// A multiset knows what a sequence contains.
pub proof fn same_elements<T>(a: Seq<T>, b: Seq<T>, x: T)
    requires
        a.to_multiset() == b.to_multiset(),
        a.contains(x),
    ensures
        b.contains(x),
{
    broadcast use vstd::seq_lib::group_to_multiset_ensures;

    assert(a.to_multiset().count(x) > 0);
    assert(b.to_multiset().count(x) > 0);
}

/// The mark phase over one pool keeps what it has to keep of the objects in `z`,
/// and takes the tag of the pool from each that has it.
proof fn mark_buffers_finds(
    c: Snapshot,
    vec_index: u8,
    b: BufferWalk,
    z: spec_fn(usize) -> bool,
    tags: Map<usize, u8>,
)
    requires
        c.wf(),
        b.wf(),
        cycle_phases::all_in_heap(c, b.buffers),
        open_to_deletion(c, z),
        deleting(c.heap, z, tags, b.s, Seq::empty()),
        tagged_are_pending(c.heap, z, vec_index, b),
    ensures
        deleting(
            c.heap,
            z,
            tags,
            cycle_phases::mark_buffers(c, vec_index, b).s,
            Seq::empty(),
        ),
        forall|x: ObjectReference| #[trigger]
            c.heap.contains(x) && z(x.granule()) ==> {
                let t = cycle_phases::mark_buffers(c, vec_index, b).s.cand[x.granule()];
                &&& t == 0 || t == b.s.cand[x.granule()]
                &&& t != 0 ==> t != vec_index
            },
    decreases b.pending().len(),
{
    let heap = c.heap;
    let (bi, ei) = buffer::seek(b.buffers, b.bi, b.ei);
    buffer::seek_skips_nothing(b.buffers, b.bi, b.ei);
    cycle_phases::seek_goes_forward(b.buffers, b.bi, b.ei);
    if bi < b.buffers.len() {
        cycle_phases::mark_buffer_step_progress(c, vec_index, b);
        let o = b.buffers[bi][ei];
        let f = cycle_phases::mark_buffer_step(c, vec_index, b);
        assert forall|x: ObjectReference| #[trigger]
            b.pending().contains(x) && x != o implies f.pending().contains(x) by {
            let i = choose|i: int| 0 <= i < b.pending().len() && b.pending()[i] == x;
            let after = buffer::pending(b.buffers, bi, ei + 1);
            assert(after[i - 1] == x);
            if !cycle_phases::should_mark(b.s, o, vec_index) {
                buffer::removal_skips_nothing(b.buffers, bi, ei);
                same_elements(after, f.pending(), x);
            }
        }
        if cycle_phases::should_mark(b.s, o, vec_index) {
            let w = cycle_model::walk_from(b.s.tagged(o, 0), o, b.visited, 0);
            assert(c.holds(w.stack));
            assert(w.stack[0] == o);
            assert(deleting(heap, z, tags, w.s, w.stack)) by {
                assert forall|x: ObjectReference| #[trigger]
                    heap.contains(x) && z(x.granule()) implies {
                    &&& w.s.strong[x.granule()] == 0
                    &&& w.s.cand[x.granule()] == 0 || w.s.cand[x.granule()] == tags[x.granule()]
                    &&& w.s.cand[x.granule()] == 0 && tags[x.granule()] != 0 ==> !w.s.is_black(x)
                        || w.stack.contains(x)
                } by {
                    assert(!Seq::<ObjectReference>::empty().contains(x));
                    if x.granule() == o.granule() {
                        assert(x == o);
                    }
                }
                assert forall|p: ObjectReference, x: ObjectReference|
                    #![trigger cycle_grey::children(heap, p).contains(x)]
                    heap.contains(p) && heap.contains(x) && z(p.granule()) && z(x.granule())
                        && !w.s.is_black(p) && cycle_grey::children(heap, p).contains(
                        x,
                    ) implies !w.s.is_black(x) || w.s.cand[x.granule()] != 0 || w.stack.contains(
                    x,
                ) by {
                    assert(!Seq::<ObjectReference>::empty().contains(x));
                    if x.granule() == o.granule() {
                        assert(x == o);
                    }
                }
            }
            mark_all_finds(c, w, z, tags);
        }
        assert forall|x: ObjectReference| #[trigger]
            heap.contains(x) && z(x.granule()) implies (f.s.cand[x.granule()] == 0
            || f.s.cand[x.granule()] == b.s.cand[x.granule()]) && (x == o
            && cycle_phases::should_mark(b.s, o, vec_index) ==> f.s.cand[x.granule()] == 0) by {
            if x.granule() == o.granule() {
                assert(x == o);
            }
        }
        assert(deleting(heap, z, tags, f.s, Seq::empty())) by {
            if !cycle_phases::should_mark(b.s, o, vec_index) {
                if z(o.granule()) {
                    assert(heap.contains(o));
                    assert(b.s.strong[o.granule()] == 0);
                }
            }
        }
        assert(tagged_are_pending(heap, z, vec_index, f)) by {
            assert forall|x: ObjectReference| #[trigger]
                heap.contains(x) && z(x.granule()) && f.s.cand[x.granule()] == vec_index
                    && f.s.cand[x.granule()] != 0 implies f.pending().contains(x) by {
                assert(b.pending().contains(x));
                if x == o {
                    assert(b.s.strong[o.granule()] == 0);
                    assert(cycle_phases::should_mark(b.s, o, vec_index));
                }
            }
        }
        mark_buffers_finds(c, vec_index, f, z, tags);
    } else {
        assert forall|x: ObjectReference| #[trigger] heap.contains(x) && z(x.granule()) implies {
            let t = b.s.cand[x.granule()];
            &&& t == 0 || t == b.s.cand[x.granule()]
            &&& t != 0 ==> t != vec_index
        } by {
            if b.s.cand[x.granule()] != 0 && b.s.cand[x.granule()] == vec_index {
                assert(b.pending().contains(x));
            }
        }
    }
}

/// Where every object is black, what trial deletion keeps begins to hold.
pub proof fn deleting_begins(c: Snapshot, s: CycleState, z: spec_fn(usize) -> bool)
    requires
        cycle_soundness::all_black(s.color),
        forall|o: ObjectReference| #[trigger]
            c.heap.contains(o) && z(o.granule()) ==> s.strong[o.granule()] == 0,
    ensures
        deleting(c.heap, z, s.cand, s, Seq::empty()),
{
    assert forall|p: ObjectReference| s.is_black(p) by {
        assert(s.color[p.granule()] <= 1);
    }
}

/// The mark phase over the candidates `buffers` keeps what it has to keep of the
/// objects in `z`, and takes the tag of the pool from each that has it.
pub proof fn pool_is_found(
    c: Snapshot,
    vec_index: u8,
    s: CycleState,
    buffers: Seq<Seq<ObjectReference>>,
    visited: usize,
    z: spec_fn(usize) -> bool,
    tags: Map<usize, u8>,
)
    requires
        c.wf(),
        cycle_phases::all_in_heap(c, buffers),
        open_to_deletion(c, z),
        deleting(c.heap, z, tags, s, Seq::empty()),
        forall|x: ObjectReference| #[trigger]
            c.heap.contains(x) && z(x.granule()) && s.cand[x.granule()] == vec_index
                && s.cand[x.granule()] != 0 ==> buffers.flatten().contains(x),
    ensures
        ({
            let m = cycle_phases::mark_buffers(
                c,
                vec_index,
                cycle_phases::buffers_from(s, buffers, visited),
            );
            &&& deleting(c.heap, z, tags, m.s, Seq::empty())
            &&& forall|x: ObjectReference| #[trigger]
                c.heap.contains(x) && z(x.granule()) ==> {
                    let t = m.s.cand[x.granule()];
                    &&& t == 0 || t == s.cand[x.granule()]
                    &&& t != 0 ==> t != vec_index
                }
        }),
{
    let b = cycle_phases::buffers_from(s, buffers, visited);
    assert(b.pending() =~= buffers.flatten()) by {
        if buffers.len() > 0 {
            assert(buffers[0].skip(0) =~= buffers[0]);
            assert(buffers.skip(1) =~= buffers.drop_first());
        }
    }
    mark_buffers_finds(c, vec_index, b, z, tags);
}

/// Once no object in `z` is a candidate any more, none is black that can be
/// reached inside `z` from one that was.
pub proof fn everything_is_deleted(
    heap: Heap,
    z: spec_fn(usize) -> bool,
    tags: Map<usize, u8>,
    s: CycleState,
    o: ObjectReference,
)
    requires
        deleting(heap, z, tags, s, Seq::empty()),
        all_found(heap, z, tags),
        forall|x: ObjectReference| #[trigger]
            heap.contains(x) && z(x.granule()) ==> s.cand[x.granule()] == 0,
        heap.contains(o),
        z(o.granule()),
    ensures
        !s.is_black(o),
{
    let path = choose|path: Seq<ObjectReference>| leads_from_candidate(heap, z, tags, o, path);
    path_is_deleted(heap, z, tags, s, path, path.len() - 1);
}

/// Every object on a path inside `z` that begins with a candidate is deleted.
proof fn path_is_deleted(
    heap: Heap,
    z: spec_fn(usize) -> bool,
    tags: Map<usize, u8>,
    s: CycleState,
    path: Seq<ObjectReference>,
    i: int,
)
    requires
        deleting(heap, z, tags, s, Seq::empty()),
        path_within(heap, z, path),
        tags[path[0].granule()] != 0,
        forall|x: ObjectReference| #[trigger]
            heap.contains(x) && z(x.granule()) ==> s.cand[x.granule()] == 0,
        0 <= i < path.len(),
    ensures
        !s.is_black(path[i]),
    decreases i,
{
    let x = path[i];
    assert(heap.contains(x) && z(x.granule()));
    assert(!Seq::<ObjectReference>::empty().contains(x));
    if i > 0 {
        path_is_deleted(heap, z, tags, s, path, i - 1);
        assert(heap.contains(path[i - 1]) && z(path[i - 1].granule()));
        assert(cycle_grey::children(heap, path[i - 1]).contains(path[i]));
    }
}

/// Whether no object in `z` is black.
pub open spec fn none_black(heap: Heap, s: CycleState, z: spec_fn(usize) -> bool) -> bool {
    forall|x: ObjectReference| #[trigger]
        heap.contains(x) && z(x.granule()) ==> !s.is_black(x)
}

/// Restoring what is outside `z` changes no colour in `z`.
proof fn scan_black_stays_outside(c: Snapshot, w: Walk, z: spec_fn(usize) -> bool)
    requires
        c.wf(),
        c.holds(w.stack),
        c.covers(w.s.color),
        cycle_laws::rest_unlogged(c, w.s.color),
        closed_to_referrers(c.heap, z),
        none_black(c.heap, w.s, z),
        forall|i: int| 0 <= i < w.stack.len() ==> !z((#[trigger] w.stack[i]).granule()),
    ensures
        none_black(c.heap, cycle_model::scan_black_all(c, w).s, z),
    decreases
            cycle_model::count_all(c.heap, cycle_model::not_black(w.s)),
            w.stack.len(),
{
    let heap = c.heap;
    if w.stack.len() > 0 {
        let o = w.stack.last();
        let v = cycle_model::scan_black_step(c, w);
        cycle_model::scan_black_step_progress(c, w);
        cycle_model::pop_in_heap(c, w.stack);
        assert(w.stack[w.stack.len() - 1] == o);
        if w.s.is_black(o) {
            assert forall|i: int| 0 <= i < v.stack.len() implies !z(
                (#[trigger] v.stack[i]).granule(),
            ) by {
                assert(v.stack[i] == w.stack[i]);
            }
        } else {
            let t = w.s.paint(o, BLACK_IN_STACK).with_strong(
                o,
                cycle_model::restored_strong(w.s.counts.rc[o.granule()]),
            );
            let xs = cycle_model::satb_refs(c, heap.slots(o));
            cycle_model::restore_frame(t, xs);
            current_children(c, w.s.color, o);
            cycle_model::children_in_heap(c, o);
            assert forall|i: int| 0 <= i < v.stack.len() implies !z(
                (#[trigger] v.stack[i]).granule(),
            ) by {
                if i < w.stack.len() {
                    assert(v.stack[i] == w.stack[i]);
                } else {
                    let ys = cycle_model::not_in_stack(t.color, xs);
                    let y = ys[i - w.stack.len()];
                    assert(v.stack[i] == y);
                    picked_from(t.color, xs, i - w.stack.len());
                    let j = choose|j: int| 0 <= j < xs.len() && xs[j] == y;
                    assert(heap.contains(xs[j]));
                    assert(cycle_grey::children(heap, o).contains(y));
                }
            }
        }
        assert forall|x: ObjectReference| #[trigger]
            heap.contains(x) && z(x.granule()) implies !v.s.is_black(x) by {
            assert(!w.s.is_black(x));
        }
        still_unlogged(c, w.s.color, v.s.color);
        scan_black_stays_outside(c, v, z);
    }
}

/// Those that are not being restored already are among all.
pub proof fn picked_from(color: Map<usize, u8>, xs: Seq<ObjectReference>, i: int)
    requires
        0 <= i < cycle_model::not_in_stack(color, xs).len(),
    ensures
        xs.contains(cycle_model::not_in_stack(color, xs)[i]),
    decreases xs.len(),
{
    let p = xs.drop_last();
    let ys = cycle_model::not_in_stack(color, p);
    if i < ys.len() {
        picked_from(color, p, i);
        let j = choose|j: int| 0 <= j < p.len() && p[j] == ys[i];
        assert(xs[j] == ys[i]);
    } else {
        assert(xs[xs.len() - 1] == xs.last());
    }
}

/// What an object that is not black referred to is what it refers to.
pub proof fn current_children(c: Snapshot, color: Map<usize, u8>, o: ObjectReference)
    requires
        c.wf(),
        cycle_laws::rest_unlogged(c, color),
        c.heap.contains(o),
        color[o.granule()] >= 2,
    ensures
        cycle_model::satb_refs(c, c.heap.slots(o)) == cycle_grey::children(c.heap, o),
{
    let k = c.heap.place(o);
    assert forall|j: int| 0 <= j < c.heap.slots(o).len() implies c.unlog[#[trigger] c.heap.slots(
        o,
    )[j]] == 1 by {
        assert(c.heap.objects@[k].slots@[j] == c.heap.slots(o)[j]);
        assert(c.heap.objects@[k].object == o);
    }
    cycle_laws::unlogged_refs_are_current(c, c.heap.slots(o));
}

/// Fewer objects that are not black have fewer slots that have to be unlogged.
pub proof fn still_unlogged(c: Snapshot, color: Map<usize, u8>, fewer: Map<usize, u8>)
    requires
        cycle_laws::rest_unlogged(c, color),
        forall|g: usize| #[trigger] fewer[g] >= 2 ==> color[g] >= 2,
    ensures
        cycle_laws::rest_unlogged(c, fewer),
{
    assert forall|k: int, j: int|
        #![trigger c.heap.objects@[k].slots@[j]]
        0 <= k < c.heap.objects@.len() && 0 <= j < c.heap.objects@[k].slots@.len()
            && fewer[c.heap.objects@[k].object.granule()] >= 2
            implies c.unlog[c.heap.objects@[k].slots@[j]] == 1 by {
        assert(color[c.heap.objects@[k].object.granule()] >= 2);
    }
}

/// No black object refers to one in `z`, where none in `z` is black.
proof fn no_black_refs(
    c: Snapshot,
    s: CycleState,
    z: spec_fn(usize) -> bool,
    x: ObjectReference,
    n: nat,
)
    requires
        c.wf(),
        closed_to_referrers(c.heap, z),
        none_black(c.heap, s, z),
        c.heap.contains(x),
        z(x.granule()),
        n <= c.heap.objects@.len(),
    ensures
        cycle_laws::refs_from_some(c.heap, cycle_laws::black(s.color), x.granule(), n) == 0,
    decreases n,
{
    if n > 0 {
        no_black_refs(c, s, z, x, (n - 1) as nat);
        let p = c.heap.objects@[n - 1].object;
        assert(c.heap.contains(p));
        if cycle_laws::black(s.color)(p.granule()) {
            no_refs_into(c, z, p, x);
        }
    }
}

/// The scan blackens no object in `z`: what no black object and nothing outside
/// refers to has no count beyond the bias.
proof fn scan_stays_outside(
    c: Snapshot,
    w: Walk,
    base: spec_fn(usize) -> nat,
    z: spec_fn(usize) -> bool,
)
    requires
        c.wf(),
        c.holds(w.stack),
        c.covers(w.s.color),
        cycle_laws::accounts(c.heap, w.s, base),
        cycle_laws::in_range(c.heap, base),
        cycle_laws::rest_unlogged(c, w.s.color),
        cycle_laws::whites_settled(w.s, Seq::empty()),
        closed_to_referrers(c.heap, z),
        none_black(c.heap, w.s, z),
        forall|x: ObjectReference| #[trigger]
            c.heap.contains(x) && z(x.granule()) ==> base(x.granule()) == 1,
    ensures
        none_black(c.heap, cycle_model::scan_all(c, w).s, z),
    decreases cycle_model::count_all(c.heap, cycle_model::grey(w.s)), w.stack.len(),
{
    let heap = c.heap;
    if w.stack.len() > 0 {
        let o = w.stack.last();
        let v = cycle_model::scan_step(c, w);
        cycle_model::scan_step_progress(c, w);
        cycle_model::pop_in_heap(c, w.stack);
        cycle_laws::scan_step_keeps_accounts(c, w, base);
        if w.s.color_of(o) == GREY && w.s.counts.rc[o.granule()] > 1 {
            if z(o.granule()) {
                assert(heap.contains(o));
                no_black_refs(c, w.s, z, o, heap.objects@.len());
                assert(w.s.counts.count(o.granule()) == base(o.granule())
                    + cycle_laws::black_refs(heap, w.s.color, o.granule()));
            }
            let start = cycle_model::walk_from(w.s, o, w.nested, 0);
            assert(c.holds(start.stack));
            scan_black_stays_outside(c, start, z);
        }
        assert(none_black(heap, v.s, z));
        scan_stays_outside(c, v, base, z);
    }
}

/// The scan phase blackens no object in `z`.
pub proof fn scan_each_stays_outside(
    c: Snapshot,
    w: Walk,
    xs: Seq<ObjectReference>,
    base: spec_fn(usize) -> nat,
    z: spec_fn(usize) -> bool,
)
    requires
        c.wf(),
        c.holds(xs),
        c.covers(w.s.color),
        cycle_laws::accounts(c.heap, w.s, base),
        cycle_laws::in_range(c.heap, base),
        cycle_laws::rest_unlogged(c, w.s.color),
        cycle_laws::whites_settled(w.s, Seq::empty()),
        closed_to_referrers(c.heap, z),
        none_black(c.heap, w.s, z),
        forall|x: ObjectReference| #[trigger]
            c.heap.contains(x) && z(x.granule()) ==> base(x.granule()) == 1,
    ensures
        none_black(c.heap, cycle_phases::scan_each(c, w, xs).s, z),
    decreases xs.len(),
{
    if xs.len() > 0 {
        let p = xs.drop_last();
        cycle_model::pop_in_heap(c, xs);
        scan_each_stays_outside(c, w, p, base, z);
        cycle_phases::scan_each_covers(c, w, p);
        cycle_soundness::scan_each_keeps_accounts(c, w, p, base);
        let v = cycle_phases::scan_each(c, w, p);
        let start = cycle_model::walk_from(v.s, xs.last(), v.visited, v.nested);
        assert(c.holds(start.stack));
        scan_stays_outside(c, start, base, z);
    }
}

} // verus!
