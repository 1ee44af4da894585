//! Every object that trial deletion turns grey is found by the scan.

use crate::plan::lxr::buffer;
use crate::plan::lxr::cycle_laws;
use crate::plan::lxr::cycle_model;
use crate::plan::lxr::cycle_model::{Snapshot, Walk};
use crate::plan::lxr::cycle_phases;
use crate::plan::lxr::cycle_phases::BufferWalk;
use crate::util::address::ObjectReference;
use crate::util::rc::{BLACK_IN_STACK, GREY};
use crate::vm::heap::Heap;
use vstd::prelude::*;

verus! {

/// What `o` refers to.
pub open spec fn children(heap: Heap, o: ObjectReference) -> Seq<ObjectReference> {
    cycle_model::refs(heap, heap.slots(o))
}

/// Whether `path` leads along references from grey object to grey object.
pub open spec fn grey_path(
    heap: Heap,
    color: Map<usize, u8>,
    path: Seq<ObjectReference>,
) -> bool {
    &&& path.len() > 0
    &&& forall|i: int|
        0 <= i < path.len() ==> heap.contains(#[trigger] path[i]) && color[path[i].granule()] == 2
    &&& forall|i: int|
        0 < i < path.len() ==> children(heap, path[i - 1]).contains(#[trigger] path[i])
}

/// Whether `path` leads from one of `roots` to `o`.
pub open spec fn leads_to(
    heap: Heap,
    color: Map<usize, u8>,
    roots: Seq<ObjectReference>,
    o: ObjectReference,
    path: Seq<ObjectReference>,
) -> bool {
    &&& grey_path(heap, color, path)
    &&& path.last() == o
    &&& roots.contains(path[0])
}

/// Whether `o` can be reached from one of `roots` by way of grey objects.
pub open spec fn reached(
    heap: Heap,
    color: Map<usize, u8>,
    roots: Seq<ObjectReference>,
    o: ObjectReference,
) -> bool {
    exists|path: Seq<ObjectReference>| leads_to(heap, color, roots, o, path)
}

/// Whether every grey object can be reached from one of `roots` by way of grey
/// objects.
pub open spec fn all_grey_reached(
    heap: Heap,
    color: Map<usize, u8>,
    roots: Seq<ObjectReference>,
) -> bool {
    forall|o: ObjectReference| #[trigger]
        heap.contains(o) && color[o.granule()] == 2 ==> reached(heap, color, roots, o)
}

/// Whether every object of the stack is a root or a child of a grey object.
pub open spec fn stack_from_grey(
    heap: Heap,
    color: Map<usize, u8>,
    roots: Seq<ObjectReference>,
    stack: Seq<ObjectReference>,
) -> bool {
    forall|i: int|
        0 <= i < stack.len() ==> roots.contains(#[trigger] stack[i]) || has_grey_parent(
            heap,
            color,
            stack[i],
        )
}

/// Whether a grey object refers to `o`.
pub open spec fn has_grey_parent(
    heap: Heap,
    color: Map<usize, u8>,
    o: ObjectReference,
) -> bool {
    exists|p: ObjectReference| #[trigger]
        heap.contains(p) && color[p.granule()] == 2 && children(heap, p).contains(o)
}

/// More roots reach at least as much.
pub proof fn more_roots(
    heap: Heap,
    color: Map<usize, u8>,
    roots: Seq<ObjectReference>,
    more: Seq<ObjectReference>,
)
    requires
        all_grey_reached(heap, color, roots),
        forall|o: ObjectReference| #[trigger] roots.contains(o) ==> more.contains(o),
    ensures
        all_grey_reached(heap, color, more),
{
    assert forall|o: ObjectReference| #[trigger]
        heap.contains(o) && color[o.granule()] == 2 implies reached(heap, color, more, o) by {
        let path = choose|path: Seq<ObjectReference>| leads_to(heap, color, roots, o, path);
        assert(roots.contains(path[0]));
        assert(leads_to(heap, color, more, o, path));
    }
}

/// Where the same objects are grey, the same are reached.
proof fn same_grey(
    heap: Heap,
    color: Map<usize, u8>,
    new: Map<usize, u8>,
    roots: Seq<ObjectReference>,
)
    requires
        all_grey_reached(heap, color, roots),
        forall|g: usize| #[trigger] new[g] == 2 <==> color[g] == 2,
    ensures
        all_grey_reached(heap, new, roots),
{
    assert forall|o: ObjectReference| #[trigger]
        heap.contains(o) && new[o.granule()] == 2 implies reached(heap, new, roots, o) by {
        let path = choose|path: Seq<ObjectReference>| leads_to(heap, color, roots, o, path);
        assert forall|i: int| 0 <= i < path.len() implies heap.contains(#[trigger] path[i])
            && new[path[i].granule()] == 2 by {
            assert(color[path[i].granule()] == 2);
        }
        assert(leads_to(heap, new, roots, o, path));
    }
}

/// Two objects of the heap at one granule are one object.
proof fn same_granule_same_object(heap: Heap, a: ObjectReference, b: ObjectReference)
    requires
        heap.wf(),
        heap.contains(a),
        heap.contains(b),
        a.granule() == b.granule(),
    ensures
        a == b,
{
}

/// A step of trial deletion reaches what it turns grey.
proof fn mark_step_reaches(c: Snapshot, w: Walk, roots: Seq<ObjectReference>)
    requires
        c.wf(),
        c.holds(w.stack),
        w.stack.len() > 0,
        all_grey_reached(c.heap, w.s.color, roots),
        stack_from_grey(c.heap, w.s.color, roots, w.stack),
    ensures
        all_grey_reached(c.heap, cycle_model::mark_step(c, w).s.color, roots),
        stack_from_grey(
            c.heap,
            cycle_model::mark_step(c, w).s.color,
            roots,
            cycle_model::mark_step(c, w).stack,
        ),
{
    let h = c.heap;
    let o = w.stack.last();
    let v = cycle_model::mark_step(c, w);
    cycle_model::pop_in_heap(c, w.stack);
    let old = w.s.color;
    let new = v.s.color;
    if cycle_model::markable(w.s, o) {
        let xs = cycle_model::refs(h, c.unlogged_slots(o));
        let s1 = w.s.paint(o, GREY);
        cycle_model::take_away_frame(s1, xs);
        if c.has_logged_slot(o) {
            cycle_model::give_back_frame(
                cycle_model::take_away(s1, xs).paint(o, BLACK_IN_STACK),
                xs,
                c.tag,
            );
            same_grey(h, old, new, roots);
        } else {
            cycle_model::first_logged_bounds(c.unlog, h.slots(o), 0);
            assert(c.unlogged_slots(o) =~= h.slots(o));
            assert(new == old.insert(o.granule(), 2));
            assert forall|q: ObjectReference| #[trigger]
                h.contains(q) && new[q.granule()] == 2 implies reached(h, new, roots, q) by {
                if q.granule() == o.granule() {
                    same_granule_same_object(h, q, o);
                    assert(w.stack[w.stack.len() - 1] == o);
                    if roots.contains(o) {
                        let path = seq![o];
                        assert(leads_to(h, new, roots, o, path));
                    } else {
                        let p = choose|p: ObjectReference| #[trigger]
                            h.contains(p) && old[p.granule()] == 2 && children(h, p).contains(o);
                        let path = choose|path: Seq<ObjectReference>|
                            leads_to(h, old, roots, p, path);
                        let longer = path.push(o);
                        assert forall|i: int| 0 <= i < longer.len() implies h.contains(
                            #[trigger] longer[i],
                        ) && new[longer[i].granule()] == 2 by {
                            if i < path.len() {
                                assert(h.contains(path[i]) && old[path[i].granule()] == 2);
                            }
                        }
                        assert forall|i: int| 0 < i < longer.len() implies children(
                            h,
                            longer[i - 1],
                        ).contains(#[trigger] longer[i]) by {
                            if i < path.len() {
                                assert(children(h, path[i - 1]).contains(path[i]));
                            }
                        }
                        assert(leads_to(h, new, roots, o, longer));
                    }
                } else {
                    let path = choose|path: Seq<ObjectReference>|
                        leads_to(h, old, roots, q, path);
                    assert forall|i: int| 0 <= i < path.len() implies h.contains(
                        #[trigger] path[i],
                    ) && new[path[i].granule()] == 2 by {
                        assert(old[path[i].granule()] == 2);
                    }
                    assert(leads_to(h, new, roots, q, path));
                }
            }
        }
        assert forall|i: int| 0 <= i < v.stack.len() implies roots.contains(#[trigger] v.stack[i])
            || has_grey_parent(h, new, v.stack[i]) by {
            if i < w.stack.len() - 1 {
                assert(v.stack[i] == w.stack[i]);
                if !roots.contains(w.stack[i]) {
                    let p = choose|p: ObjectReference| #[trigger]
                        h.contains(p) && old[p.granule()] == 2 && children(h, p).contains(
                            w.stack[i],
                        );
                    assert(h.contains(p) && new[p.granule()] == 2 && children(h, p).contains(
                        v.stack[i],
                    ));
                }
            } else {
                assert(v.stack[i] == xs[i - (w.stack.len() - 1)]);
                assert(xs.contains(v.stack[i]));
                assert(h.contains(o) && new[o.granule()] == 2 && children(h, o).contains(
                    v.stack[i],
                ));
            }
        }
    } else {
        same_grey(h, old, new, roots);
        assert forall|i: int| 0 <= i < v.stack.len() implies roots.contains(#[trigger] v.stack[i])
            || has_grey_parent(h, new, v.stack[i]) by {
            assert(v.stack[i] == w.stack[i]);
            if !roots.contains(w.stack[i]) {
                let p = choose|p: ObjectReference| #[trigger]
                    h.contains(p) && old[p.granule()] == 2 && children(h, p).contains(w.stack[i]);
                assert(h.contains(p) && new[p.granule()] == 2 && children(h, p).contains(
                    v.stack[i],
                ));
            }
        }
    }
}

/// Trial deletion reaches what it turns grey.
proof fn mark_all_reaches(c: Snapshot, w: Walk, roots: Seq<ObjectReference>)
    requires
        c.wf(),
        c.holds(w.stack),
        all_grey_reached(c.heap, w.s.color, roots),
        stack_from_grey(c.heap, w.s.color, roots, w.stack),
    ensures
        all_grey_reached(c.heap, cycle_model::mark_all(c, w).s.color, roots),
    decreases
            cycle_model::count_all(c.heap, cycle_model::unmarked(w.s)),
            w.stack.len(),
{
    if w.stack.len() > 0 {
        cycle_model::mark_step_progress(c, w);
        mark_step_reaches(c, w, roots);
        mark_all_reaches(c, cycle_model::mark_step(c, w), roots);
    }
}

/// The elements before place `ei` of buffer `bi`.
pub open spec fn passed<T>(b: Seq<Seq<T>>, bi: int, ei: int) -> Seq<T> {
    if 0 <= bi < b.len() {
        b.take(bi).flatten() + b[bi].take(ei)
    } else {
        b.flatten()
    }
}

/// Passing over empty buffers passes nothing.
proof fn seek_passes_nothing<T>(b: Seq<Seq<T>>, bi: int, ei: int)
    requires
        0 <= bi,
        0 <= ei,
        bi < b.len() ==> ei <= b[bi].len(),
    ensures
        ({
            let (bj, ej) = buffer::seek(b, bi, ei);
            passed(b, bj, ej) == passed(b, bi, ei)
        }),
    decreases b.len() - bi,
{
    if bi < b.len() && ei >= b[bi].len() {
        seek_passes_nothing(b, bi + 1, 0);
        assert(b.take(bi + 1) =~= b.take(bi).push(b[bi]));
        b.take(bi).lemma_flatten_push(b[bi]);
        assert(b[bi].take(ei) =~= b[bi]);
        if bi + 1 < b.len() {
            assert(b[bi + 1].take(0) =~= Seq::<T>::empty());
            assert(passed(b, bi + 1, 0) =~= passed(b, bi, ei));
        } else {
            assert(b.take(bi + 1) =~= b);
        }
    }
}

/// Removing the current element keeps what was passed.
proof fn removal_keeps_passed<T>(b: Seq<Seq<T>>, bi: int, ei: int)
    requires
        0 <= bi < b.len(),
        0 <= ei < b[bi].len(),
    ensures
        passed(buffer::removed_at(b, bi, ei), bi, ei) == passed(b, bi, ei),
{
    let after = buffer::removed_at(b, bi, ei);
    let rest = buffer::swap_removed(b[bi], ei);
    if rest.len() == 0 {
        assert(b[bi].take(ei) =~= Seq::<T>::empty());
        if bi < after.len() {
            assert(after.take(bi) =~= b.take(bi));
            assert(after[bi].take(ei) =~= Seq::<T>::empty());
        } else {
            assert(after =~= b.take(bi));
            assert(b.take(bi).flatten() + Seq::<T>::empty() =~= b.take(bi).flatten());
        }
    } else {
        assert(after.take(bi) =~= b.take(bi));
        assert(after[bi].take(ei) =~= b[bi].take(ei));
    }
}

/// The mark phase reaches what it turns grey from the candidates that it leaves
/// in the buffers, and from those that were marked from before.
pub proof fn mark_buffers_reaches(
    c: Snapshot,
    vec_index: u8,
    b: BufferWalk,
    before: Seq<ObjectReference>,
)
    requires
        c.wf(),
        b.wf(),
        cycle_phases::all_in_heap(c, b.buffers),
        all_grey_reached(c.heap, b.s.color, before + passed(b.buffers, b.bi, b.ei)),
    ensures
        all_grey_reached(
            c.heap,
            cycle_phases::mark_buffers(c, vec_index, b).s.color,
            before + cycle_phases::mark_buffers(c, vec_index, b).buffers.flatten(),
        ),
    decreases b.pending().len(),
{
    let (bi, ei) = buffer::seek(b.buffers, b.bi, b.ei);
    cycle_phases::seek_goes_forward(b.buffers, b.bi, b.ei);
    seek_passes_nothing(b.buffers, b.bi, b.ei);
    if bi < b.buffers.len() {
        cycle_phases::mark_buffer_step_progress(c, vec_index, b);
        let o = b.buffers[bi][ei];
        let f = cycle_phases::mark_buffer_step(c, vec_index, b);
        let roots = before + passed(b.buffers, b.bi, b.ei);
        if cycle_phases::should_mark(b.s, o, vec_index) {
            let more = before + passed(f.buffers, f.bi, f.ei);
            assert(b.buffers[bi].take(ei + 1) =~= b.buffers[bi].take(ei).push(o));
            assert(more =~= roots.push(o));
            assert forall|q: ObjectReference| #[trigger] roots.contains(q) implies more.contains(
                q,
            ) by {
                let i = choose|i: int| 0 <= i < roots.len() && roots[i] == q;
                assert(more[i] == q);
            }
            more_roots(c.heap, b.s.color, roots, more);
            let w = cycle_model::walk_from(b.s.tagged(o, 0), o, b.visited, 0);
            assert(c.holds(w.stack));
            assert(more[more.len() - 1] == o);
            assert(stack_from_grey(c.heap, w.s.color, more, w.stack)) by {
                assert forall|i: int| 0 <= i < w.stack.len() implies more.contains(
                    #[trigger] w.stack[i],
                ) || has_grey_parent(c.heap, w.s.color, w.stack[i]) by {
                    assert(w.stack[i] == o);
                }
            }
            mark_all_reaches(c, w, more);
        } else {
            removal_keeps_passed(b.buffers, bi, ei);
        }
        mark_buffers_reaches(c, vec_index, f, before);
    }
}

/// Whether every child of an object that turned black since `old` is black or
/// on the stack.
pub open spec fn blackened_children_done(
    heap: Heap,
    old: Map<usize, u8>,
    color: Map<usize, u8>,
    stack: Seq<ObjectReference>,
) -> bool {
    forall|p: ObjectReference, x: ObjectReference|
        #![trigger heap.contains(p), children(heap, p).contains(x)]
        heap.contains(p) && old[p.granule()] >= 2 && color[p.granule()] <= 1 && children(
            heap,
            p,
        ).contains(x) ==> color[x.granule()] <= 1 || cycle_laws::on_stack(stack, x.granule())
}

/// An object of `xs` that is not black is put on the stack.
proof fn not_black_is_pushed(color: Map<usize, u8>, xs: Seq<ObjectReference>, x: ObjectReference)
    requires
        xs.contains(x),
        color[x.granule()] >= 2,
    ensures
        cycle_laws::on_stack(cycle_model::not_in_stack(color, xs), x.granule()),
    decreases xs.len(),
{
    let p = xs.drop_last();
    let ys = cycle_model::not_in_stack(color, xs);
    if xs.last() == x {
        assert(ys[ys.len() - 1].granule() == x.granule());
    } else {
        let i = choose|i: int| 0 <= i < xs.len() && xs[i] == x;
        assert(p[i] == x);
        not_black_is_pushed(color, p, x);
        let zs = cycle_model::not_in_stack(color, p);
        let j = choose|j: int| 0 <= j < zs.len() && (#[trigger] zs[j]).granule() == x.granule();
        assert(ys[j].granule() == x.granule());
    }
}

/// Restoring blackens the children of whatever it blackens.
proof fn scan_black_closes(c: Snapshot, w: Walk, old: Map<usize, u8>)
    requires
        c.wf(),
        c.holds(w.stack),
        c.covers(w.s.color),
        cycle_laws::rest_unlogged(c, w.s.color),
        blackened_children_done(c.heap, old, w.s.color, w.stack),
        forall|g: usize| #[trigger] w.s.color[g] >= 2 ==> old[g] >= 2,
    ensures
        blackened_children_done(
            c.heap,
            old,
            cycle_model::scan_black_all(c, w).s.color,
            Seq::empty(),
        ),
    decreases
            cycle_model::count_all(c.heap, cycle_model::not_black(w.s)),
            w.stack.len(),
{
    let h = c.heap;
    if w.stack.len() > 0 {
        let o = w.stack.last();
        let v = cycle_model::scan_black_step(c, w);
        cycle_model::scan_black_step_progress(c, w);
        cycle_model::pop_in_heap(c, w.stack);
        if w.s.is_black(o) {
            assert forall|p: ObjectReference, x: ObjectReference|
                #![trigger h.contains(p), children(h, p).contains(x)]
                h.contains(p) && old[p.granule()] >= 2 && v.s.color[p.granule()] <= 1 && children(
                    h,
                    p,
                ).contains(x) implies v.s.color[x.granule()] <= 1 || cycle_laws::on_stack(
                v.stack,
                x.granule(),
            ) by {
                if v.s.color[x.granule()] >= 2 {
                    assert(w.s.color[x.granule()] >= 2);
                    let i = choose|i: int|
                        0 <= i < w.stack.len() && (#[trigger] w.stack[i]).granule()
                            == x.granule();
                    assert(i < w.stack.len() - 1);
                    assert(v.stack[i].granule() == x.granule());
                }
            }
        } else {
            let t = w.s.paint(o, BLACK_IN_STACK).with_strong(
                o,
                cycle_model::restored_strong(w.s.counts.rc[o.granule()]),
            );
            let xs = cycle_model::satb_refs(c, h.slots(o));
            cycle_model::restore_frame(t, xs);
            let k = h.place(o);
            assert forall|j: int| 0 <= j < h.slots(o).len() implies c.unlog[#[trigger] h.slots(
                o,
            )[j]] == 1 by {
                assert(h.objects@[k].slots@[j] == h.slots(o)[j]);
                assert(h.objects@[k].object == o);
            }
            cycle_laws::unlogged_refs_are_current(c, h.slots(o));
            let ys = cycle_model::not_in_stack(t.color, xs);
            assert forall|p: ObjectReference, x: ObjectReference|
                #![trigger h.contains(p), children(h, p).contains(x)]
                h.contains(p) && old[p.granule()] >= 2 && v.s.color[p.granule()] <= 1 && children(
                    h,
                    p,
                ).contains(x) implies v.s.color[x.granule()] <= 1 || cycle_laws::on_stack(
                v.stack,
                x.granule(),
            ) by {
                if v.s.color[x.granule()] >= 2 {
                    assert(w.s.color[x.granule()] >= 2);
                    if p.granule() == o.granule() {
                        same_granule_same_object(h, p, o);
                        not_black_is_pushed(t.color, xs, x);
                        let i = choose|i: int|
                            0 <= i < ys.len() && (#[trigger] ys[i]).granule() == x.granule();
                        assert(v.stack[w.stack.len() + i].granule() == x.granule());
                    } else {
                        assert(w.s.color[p.granule()] <= 1);
                        let i = choose|i: int|
                            0 <= i < w.stack.len() && (#[trigger] w.stack[i]).granule()
                                == x.granule();
                        assert(v.stack[i].granule() == x.granule());
                    }
                }
            }
        }
        assert forall|k: int, j: int|
            #![trigger h.objects@[k].slots@[j]]
            0 <= k < h.objects@.len() && 0 <= j < h.objects@[k].slots@.len()
                && v.s.color[h.objects@[k].object.granule()] >= 2 implies c.unlog[h.objects@[k].slots@[j]]
            == 1 by {
            assert(w.s.color[h.objects@[k].object.granule()] >= 2);
        }
        scan_black_closes(c, v, old);
    } else {
        assert(w.stack =~= Seq::empty());
    }
}

/// Where every child of a blackened object is black, a grey path to an object
/// that is still grey is still grey.
proof fn path_stays_grey(
    heap: Heap,
    old: Map<usize, u8>,
    new: Map<usize, u8>,
    path: Seq<ObjectReference>,
    i: int,
)
    requires
        grey_path(heap, old, path),
        0 <= i < path.len(),
        new[path.last().granule()] == 2,
        blackened_children_done(heap, old, new, Seq::empty()),
        forall|g: usize| #[trigger] new[g] >= 2 ==> old[g] == new[g],
    ensures
        new[path[i].granule()] == 2,
    decreases path.len() - i,
{
    if i < path.len() - 1 {
        path_stays_grey(heap, old, new, path, i + 1);
        let p = path[i];
        let x = path[i + 1];
        assert(children(heap, path[i + 1 - 1]).contains(path[i + 1]));
        assert(heap.contains(p) && old[p.granule()] == 2);
        if new[p.granule()] <= 1 {
            assert(new[x.granule()] <= 1 || cycle_laws::on_stack(Seq::empty(), x.granule()));
        }
    }
}

/// A grey path, from where it last leaves `o` on.
proof fn path_avoids(
    heap: Heap,
    color: Map<usize, u8>,
    o: ObjectReference,
    path: Seq<ObjectReference>,
    from: Seq<ObjectReference>,
    roots: Seq<ObjectReference>,
)
    requires
        heap.wf(),
        heap.contains(o),
        grey_path(heap, color, path),
        path.last().granule() != o.granule(),
        from.contains(path[0]),
        forall|x: ObjectReference| #[trigger] from.contains(x) && x != o ==> roots.contains(x),
        forall|x: ObjectReference| #[trigger] children(heap, o).contains(x) ==> roots.contains(x),
    ensures
        reached(heap, color.insert(o.granule(), 3), roots, path.last()),
    decreases path.len(),
{
    let new = color.insert(o.granule(), 3);
    if exists|i: int| 0 <= i < path.len() && (#[trigger] path[i]).granule() == o.granule() {
        let i = choose|i: int|
            0 <= i < path.len() && (#[trigger] path[i]).granule() == o.granule();
        assert(heap.contains(path[i]));
        same_granule_same_object(heap, path[i], o);
        let tail = path.skip(i + 1);
        assert(children(heap, path[i + 1 - 1]).contains(path[i + 1]));
        assert forall|j: int| 0 <= j < tail.len() implies heap.contains(#[trigger] tail[j])
            && color[tail[j].granule()] == 2 by {
            assert(tail[j] == path[i + 1 + j]);
        }
        assert forall|j: int| 0 < j < tail.len() implies children(heap, tail[j - 1]).contains(
            #[trigger] tail[j],
        ) by {
            assert(tail[j] == path[i + 1 + j]);
            assert(tail[j - 1] == path[i + 1 + j - 1]);
        }
        assert(tail.last() == path.last());
        assert(roots.contains(tail[0]));
        path_avoids(heap, color, o, tail, roots, roots);
    } else {
        assert forall|j: int| 0 <= j < path.len() implies heap.contains(#[trigger] path[j])
            && new[path[j].granule()] == 2 by {
            assert(path[j].granule() != o.granule());
        }
        assert(path[0].granule() != o.granule());
        assert(leads_to(heap, new, roots, path.last(), path));
    }
}

/// A step of the scan leaves every grey object reached.
proof fn scan_step_reaches(c: Snapshot, w: Walk, rest: Seq<ObjectReference>)
    requires
        c.wf(),
        c.holds(w.stack),
        c.covers(w.s.color),
        cycle_laws::rest_unlogged(c, w.s.color),
        w.stack.len() > 0,
        all_grey_reached(c.heap, w.s.color, rest + w.stack),
    ensures
        all_grey_reached(
            c.heap,
            cycle_model::scan_step(c, w).s.color,
            rest + cycle_model::scan_step(c, w).stack,
        ),
        cycle_laws::rest_unlogged(c, cycle_model::scan_step(c, w).s.color),
{
    let h = c.heap;
    let o = w.stack.last();
    let v = cycle_model::scan_step(c, w);
    let from = rest + w.stack;
    let roots = rest + v.stack;
    let old = w.s.color;
    let new = v.s.color;
    cycle_model::scan_step_progress(c, w);
    cycle_model::pop_in_heap(c, w.stack);
    assert forall|x: ObjectReference| #[trigger] from.contains(x) && x != o implies roots.contains(
        x,
    ) by {
        let i = choose|i: int| 0 <= i < from.len() && from[i] == x;
        assert(i < rest.len() + w.stack.len() - 1);
        assert(roots[i] == x);
    }
    assert forall|k: int, j: int|
        #![trigger h.objects@[k].slots@[j]]
        0 <= k < h.objects@.len() && 0 <= j < h.objects@[k].slots@.len()
            && new[h.objects@[k].object.granule()] >= 2 implies c.unlog[h.objects@[k].slots@[j]]
        == 1 by {
        assert(old[h.objects@[k].object.granule()] >= 2);
    }
    if w.s.color_of(o) == GREY {
        if w.s.counts.rc[o.granule()] > 1 {
            let start = cycle_model::walk_from(w.s, o, w.nested, 0);
            assert(c.holds(start.stack));
            cycle_model::scan_black_all_blackens(c, start);
            scan_black_closes(c, start, old);
            assert(start.stack[0] == o);
            assert forall|q: ObjectReference| #[trigger]
                h.contains(q) && new[q.granule()] == 2 implies reached(h, new, roots, q) by {
                assert(old[q.granule()] == 2);
                let path = choose|path: Seq<ObjectReference>| leads_to(h, old, from, q, path);
                assert forall|i: int| 0 <= i < path.len() implies h.contains(#[trigger] path[i])
                    && new[path[i].granule()] == 2 by {
                    path_stays_grey(h, old, new, path, i);
                }
                assert(new[path[0].granule()] == 2);
                assert(roots.contains(path[0]));
                assert(leads_to(h, new, roots, q, path));
            }
        } else {
            let k = h.place(o);
            assert forall|j: int| 0 <= j < h.slots(o).len() implies c.unlog[#[trigger] h.slots(
                o,
            )[j]] == 1 by {
                assert(h.objects@[k].slots@[j] == h.slots(o)[j]);
                assert(h.objects@[k].object == o);
            }
            cycle_laws::unlogged_refs_are_current(c, h.slots(o));
            assert forall|x: ObjectReference| #[trigger] children(h, o).contains(
                x,
            ) implies roots.contains(x) by {
                let xs = children(h, o);
                let i = choose|i: int| 0 <= i < xs.len() && xs[i] == x;
                assert(roots[rest.len() + w.stack.len() - 1 + i] == x);
            }
            assert forall|q: ObjectReference| #[trigger]
                h.contains(q) && new[q.granule()] == 2 implies reached(h, new, roots, q) by {
                assert(old[q.granule()] == 2);
                let path = choose|path: Seq<ObjectReference>| leads_to(h, old, from, q, path);
                path_avoids(h, old, o, path, from, roots);
            }
        }
    } else {
        assert forall|q: ObjectReference| #[trigger]
            h.contains(q) && new[q.granule()] == 2 implies reached(h, new, roots, q) by {
            let path = choose|path: Seq<ObjectReference>| leads_to(h, old, from, q, path);
            assert(old[path[0].granule()] == 2);
            assert(leads_to(h, new, roots, q, path));
        }
    }
}

/// The scan from one candidate leaves every grey object reached from the
/// candidates that are left.
proof fn scan_all_reaches(c: Snapshot, w: Walk, rest: Seq<ObjectReference>)
    requires
        c.wf(),
        c.holds(w.stack),
        c.covers(w.s.color),
        cycle_laws::rest_unlogged(c, w.s.color),
        all_grey_reached(c.heap, w.s.color, rest + w.stack),
    ensures
        all_grey_reached(c.heap, cycle_model::scan_all(c, w).s.color, rest),
        cycle_laws::rest_unlogged(c, cycle_model::scan_all(c, w).s.color),
    decreases cycle_model::count_all(c.heap, cycle_model::grey(w.s)), w.stack.len(),
{
    if w.stack.len() > 0 {
        cycle_model::scan_step_progress(c, w);
        scan_step_reaches(c, w, rest);
        scan_all_reaches(c, cycle_model::scan_step(c, w), rest);
    } else {
        assert(rest + w.stack =~= rest);
    }
}

/// The scan from the candidates `xs` leaves every grey object reached from the
/// candidates that are left.
proof fn scan_each_reaches(
    c: Snapshot,
    w: Walk,
    xs: Seq<ObjectReference>,
    rest: Seq<ObjectReference>,
)
    requires
        c.wf(),
        c.holds(xs),
        c.covers(w.s.color),
        cycle_laws::rest_unlogged(c, w.s.color),
        all_grey_reached(c.heap, w.s.color, xs + rest),
    ensures
        all_grey_reached(c.heap, cycle_phases::scan_each(c, w, xs).s.color, rest),
        cycle_laws::rest_unlogged(c, cycle_phases::scan_each(c, w, xs).s.color),
    decreases xs.len(),
{
    if xs.len() == 0 {
        assert(xs + rest =~= rest);
    } else {
        let p = xs.drop_last();
        let x = xs.last();
        let more = seq![x] + rest;
        cycle_model::pop_in_heap(c, xs);
        assert(p + more =~= xs + rest);
        scan_each_reaches(c, w, p, more);
        cycle_phases::scan_each_covers(c, w, p);
        let v = cycle_phases::scan_each(c, w, p);
        let start = cycle_model::walk_from(v.s, x, v.visited, v.nested);
        assert(c.holds(start.stack));
        assert forall|q: ObjectReference| #[trigger] more.contains(q) implies (rest
            + start.stack).contains(q) by {
            let i = choose|i: int| 0 <= i < more.len() && more[i] == q;
            if i == 0 {
                assert((rest + start.stack)[rest.len() as int] == q);
            } else {
                assert((rest + start.stack)[i - 1] == q);
            }
        }
        more_roots(c.heap, v.s.color, more, rest + start.stack);
        scan_all_reaches(c, start, rest);
    }
}

/// After the scan of all candidates from which trial deletion went out, no
/// object is grey: every one is either white or black again.
pub proof fn scan_leaves_nothing_grey(
    c: Snapshot,
    w: Walk,
    xs: Seq<ObjectReference>,
    o: ObjectReference,
)
    requires
        c.wf(),
        c.holds(xs),
        c.covers(w.s.color),
        cycle_laws::rest_unlogged(c, w.s.color),
        all_grey_reached(c.heap, w.s.color, xs),
        c.heap.contains(o),
    ensures
        cycle_phases::scan_each(c, w, xs).s.color_of(o) != GREY,
{
    assert(xs + Seq::empty() =~= xs);
    scan_each_reaches(c, w, xs, Seq::empty());
    let f = cycle_phases::scan_each(c, w, xs);
    if f.s.color_of(o) == GREY {
        assert(c.heap.contains(o) && f.s.color[o.granule()] == 2);
        let path = choose|path: Seq<ObjectReference>|
            leads_to(c.heap, f.s.color, Seq::empty(), o, path);
        assert(Seq::<ObjectReference>::empty().contains(path[0]));
    }
}

} // verus!
