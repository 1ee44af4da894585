//! What the phases of a cycle collection do to whole pools of candidates.

use crate::plan::lxr::buffer;
use crate::plan::lxr::cycle_model;
use crate::plan::lxr::cycle_model::{CycleState, Snapshot, Walk};
use crate::plan::lxr::graphs_project;
use crate::plan::lxr::graphs_project::{GraphWalk, ObjectId, RecordView};
use crate::util::address::ObjectReference;
use crate::vm::heap::Heap;
use vstd::prelude::*;

verus! {

/// Whether the candidate `o` of the pool with tag `vec_index` is to be marked
/// from: it still carries the tag, and nothing refers to it strongly.
pub open spec fn should_mark(s: CycleState, o: ObjectReference, vec_index: u8) -> bool {
    s.cand[o.granule()] == vec_index && s.strong[o.granule()] == 0
}

/// The mark phase over the candidates of one pool, in progress.
#[verifier::ext_equal]
pub struct BufferWalk {
    /// The state of the tables.
    pub s: CycleState,
    /// The candidates that are left.
    pub buffers: Seq<Seq<ObjectReference>>,
    /// The buffer in which the walk goes on.
    pub bi: int,
    /// The place in the buffer at which it goes on.
    pub ei: int,
    /// The objects that became candidates, in order.
    pub out: Seq<ObjectReference>,
    /// How many objects trial deletion went into. The counter wraps.
    pub visited: usize,
}

/// The mark phase about to begin.
pub open spec fn buffers_from(
    s: CycleState,
    buffers: Seq<Seq<ObjectReference>>,
    visited: usize,
) -> BufferWalk {
    BufferWalk { s, buffers, bi: 0, ei: 0, out: Seq::empty(), visited }
}

/// Whether every object of the buffers is in the heap.
pub open spec fn all_in_heap(c: Snapshot, buffers: Seq<Seq<ObjectReference>>) -> bool {
    forall|i: int, j: int|
        0 <= i < buffers.len() && 0 <= j < buffers[i].len() ==> c.heap.contains(
            #[trigger] buffers[i][j],
        )
}

impl BufferWalk {
    /// The place is at or before the end of its buffer.
    pub open spec fn wf(self) -> bool {
        &&& 0 <= self.bi
        &&& 0 <= self.ei
        &&& self.bi < self.buffers.len() ==> self.ei <= self.buffers[self.bi].len()
    }

    /// The candidates that the walk still has to visit.
    pub open spec fn pending(self) -> Seq<ObjectReference> {
        buffer::pending(self.buffers, self.bi, self.ei)
    }
}

/// One candidate of the mark phase.
///
/// One that is to be marked from is no candidate any more, and trial deletion
/// begins at it. Any other leaves the buffers; if something refers to it
/// strongly it is no candidate any more, otherwise it keeps its tag.
pub open spec fn mark_buffer_step(c: Snapshot, vec_index: u8, b: BufferWalk) -> BufferWalk {
    let (bi, ei) = buffer::seek(b.buffers, b.bi, b.ei);
    let o = b.buffers[bi][ei];
    if should_mark(b.s, o, vec_index) {
        let w = cycle_model::mark_all(
            c,
            cycle_model::walk_from(b.s.tagged(o, 0), o, b.visited, 0),
        );
        BufferWalk { s: w.s, bi, ei: ei + 1, out: b.out + w.out, visited: w.visited, ..b }
    } else {
        BufferWalk {
            s: if b.s.strong[o.granule()] > 0 {
                b.s.tagged(o, 0)
            } else {
                b.s
            },
            buffers: buffer::removed_at(b.buffers, bi, ei),
            bi,
            ei,
            ..b
        }
    }
}

/// Removing an element keeps the others.
proof fn removed_at_in_heap(c: Snapshot, buffers: Seq<Seq<ObjectReference>>, bi: int, ei: int)
    requires
        all_in_heap(c, buffers),
        0 <= bi < buffers.len(),
        0 <= ei < buffers[bi].len(),
    ensures
        all_in_heap(c, buffer::removed_at(buffers, bi, ei)),
{
    let after = buffer::removed_at(buffers, bi, ei);
    let rest = buffer::swap_removed(buffers[bi], ei);
    assert forall|i: int, j: int|
        0 <= i < after.len() && 0 <= j < after[i].len() implies c.heap.contains(
        #[trigger] after[i][j],
    ) by {
        if rest.len() == 0 {
            if i == bi {
                assert(after[i] == buffers.last());
                assert(c.heap.contains(buffers[buffers.len() - 1][j]));
            } else {
                assert(after[i] == buffers[i]);
                assert(c.heap.contains(buffers[i][j]));
            }
        } else if i == bi {
            if j == ei {
                assert(c.heap.contains(buffers[bi][buffers[bi].len() - 1]));
            } else {
                assert(c.heap.contains(buffers[bi][j]));
            }
        } else {
            assert(c.heap.contains(buffers[i][j]));
        }
    }
}

/// A candidate of the mark phase leaves one candidate less to visit, and every
/// candidate in the heap.
pub proof fn mark_buffer_step_progress(c: Snapshot, vec_index: u8, b: BufferWalk)
    requires
        c.wf(),
        b.wf(),
        all_in_heap(c, b.buffers),
        buffer::seek(b.buffers, b.bi, b.ei).0 < b.buffers.len(),
    ensures
        mark_buffer_step(c, vec_index, b).wf(),
        all_in_heap(c, mark_buffer_step(c, vec_index, b).buffers),
        mark_buffer_step(c, vec_index, b).pending().len() + 1 == b.pending().len(),
        ({
            let (bi, ei) = buffer::seek(b.buffers, b.bi, b.ei);
            &&& 0 <= bi
            &&& 0 <= ei < b.buffers[bi].len()
            &&& c.heap.contains(b.buffers[bi][ei])
        }),
{
    broadcast use vstd::seq_lib::group_to_multiset_ensures;

    let (bi, ei) = buffer::seek(b.buffers, b.bi, b.ei);
    seek_goes_forward(b.buffers, b.bi, b.ei);
    buffer::seek_skips_nothing(b.buffers, b.bi, b.ei);
    let o = b.buffers[bi][ei];
    let f = mark_buffer_step(c, vec_index, b);
    if !should_mark(b.s, o, vec_index) {
        removed_at_in_heap(c, b.buffers, bi, ei);
        buffer::removal_skips_nothing(b.buffers, bi, ei);
        assert(f.pending().to_multiset().len() == f.pending().len());
    }
}

/// Seeking goes forward.
pub proof fn seek_goes_forward<T>(b: Seq<Seq<T>>, bi: int, ei: int)
    requires
        0 <= bi,
        0 <= ei,
    ensures
        buffer::seek(b, bi, ei).0 >= bi,
        buffer::seek(b, bi, ei).1 >= 0,
    decreases b.len() - bi,
{
    if bi < b.len() && ei >= b[bi].len() {
        seek_goes_forward(b, bi + 1, 0);
    }
}

/// The mark phase over the candidates of one pool, to its end.
pub open spec fn mark_buffers(c: Snapshot, vec_index: u8, b: BufferWalk) -> BufferWalk
    decreases b.pending().len(),
    when c.wf() && b.wf() && all_in_heap(c, b.buffers)
    via mark_buffers_decreases
{
    if buffer::seek(b.buffers, b.bi, b.ei).0 < b.buffers.len() {
        mark_buffers(c, vec_index, mark_buffer_step(c, vec_index, b))
    } else {
        b
    }
}

#[via_fn]
proof fn mark_buffers_decreases(c: Snapshot, vec_index: u8, b: BufferWalk) {
    if buffer::seek(b.buffers, b.bi, b.ei).0 < b.buffers.len() {
        mark_buffer_step_progress(c, vec_index, b);
    }
}

/// A phase that is carried from candidate to candidate.
pub open spec fn carry(s: CycleState, visited: usize, nested: usize) -> Walk {
    Walk { s, stack: Seq::empty(), out: Seq::empty(), visited, nested }
}

/// The scan phase over the candidates `xs`.
pub open spec fn scan_each(c: Snapshot, w: Walk, xs: Seq<ObjectReference>) -> Walk
    decreases xs.len(),
{
    if xs.len() == 0 {
        w
    } else {
        let v = scan_each(c, w, xs.drop_last());
        let f = cycle_model::scan_all(
            c,
            cycle_model::walk_from(v.s, xs.last(), v.visited, v.nested),
        );
        Walk { s: f.s, visited: f.visited, nested: f.nested, ..v }
    }
}

/// The collect phase over the candidates `xs`.
pub open spec fn collect_each(c: Snapshot, w: Walk, xs: Seq<ObjectReference>) -> Walk
    decreases xs.len(),
{
    if xs.len() == 0 {
        w
    } else {
        let v = collect_each(c, w, xs.drop_last());
        let f = cycle_model::collect_whites_all(
            c,
            cycle_model::walk_from(v.s, xs.last(), v.visited, 0),
        );
        Walk { s: f.s, out: v.out + f.out, visited: f.visited, ..v }
    }
}

/// A report on candidates in progress.
#[verifier::ext_equal]
pub struct ReportWalk {
    /// Which granules were reported.
    pub marks: Map<usize, u8>,
    /// The objects that were reported.
    pub objects: Seq<RecordView>,
    /// The candidates that were reported.
    pub candidates: Seq<ObjectId>,
}

/// The report on those of the candidates `xs` of the pool with tag `vec_index`
/// that are to be marked from.
pub open spec fn report_each(
    heap: Heap,
    s: CycleState,
    vec_index: u8,
    r: ReportWalk,
    xs: Seq<ObjectReference>,
) -> ReportWalk
    decreases xs.len(),
{
    if xs.len() == 0 {
        r
    } else {
        let v = report_each(heap, s, vec_index, r, xs.drop_last());
        let o = xs.last();
        if should_mark(s, o, vec_index) {
            let w = graphs_project::report_all(
                heap,
                s.counts.rc,
                GraphWalk { marks: v.marks, stack: seq![o], objects: v.objects },
            );
            ReportWalk {
                marks: w.marks,
                objects: w.objects,
                candidates: v.candidates.push(o.addr),
            }
        } else {
            v
        }
    }
}

/// An object without logged slots has every slot unlogged.
pub proof fn no_logged_slot(unlog: Map<usize, u8>, slots: Seq<usize>, i: int)
    requires
        0 <= i <= slots.len(),
        cycle_model::first_logged(unlog, slots, i) >= slots.len(),
    ensures
        forall|j: int| i <= j < slots.len() ==> #[trigger] unlog[slots[j]] != 0,
    decreases slots.len() - i,
{
    if i < slots.len() {
        no_logged_slot(unlog, slots, i + 1);
    }
}

/// Trial deletion turns an object grey only if none of its slots is logged, so
/// the records cover what they have to cover.
pub proof fn mark_all_covers(c: Snapshot, w: Walk)
    requires
        c.wf(),
        c.holds(w.stack),
        c.covers(w.s.color),
    ensures
        c.covers(cycle_model::mark_all(c, w).s.color),
        cycle_model::mark_all(c, w).stack.len() == 0,
    decreases
            cycle_model::count_all(c.heap, cycle_model::unmarked(w.s)),
            w.stack.len(),
{
    if w.stack.len() > 0 {
        cycle_model::mark_step_progress(c, w);
        mark_step_covers(c, w);
        mark_all_covers(c, cycle_model::mark_step(c, w));
    }
}

/// The same for one step.
proof fn mark_step_covers(c: Snapshot, w: Walk)
    requires
        c.wf(),
        c.holds(w.stack),
        c.covers(w.s.color),
        w.stack.len() > 0,
    ensures
        c.covers(cycle_model::mark_step(c, w).s.color),
{
    let o = w.stack.last();
    let v = cycle_model::mark_step(c, w);
    cycle_model::pop_in_heap(c, w.stack);
    if cycle_model::markable(w.s, o) {
        let xs = cycle_model::refs(c.heap, c.unlogged_slots(o));
        let g = w.s.paint(o, crate::util::rc::GREY);
        cycle_model::take_away_frame(g, xs);
        let t = cycle_model::take_away(g, xs);
        if c.has_logged_slot(o) {
            cycle_model::give_back_frame(t.paint(o, crate::util::rc::BLACK_IN_STACK), xs, c.tag);
            cycle_model::covers_fewer(c, w.s.color, v.s.color);
        } else {
            cycle_model::first_logged_bounds(c.unlog, c.heap.slots(o), 0);
            no_logged_slot(c.unlog, c.heap.slots(o), 0);
            assert forall|k: int, j: int|
                #![trigger c.heap.objects@[k].slots@[j]]
                0 <= k < c.heap.objects@.len() && 0 <= j < c.heap.objects@[k].slots@.len()
                    && v.s.color[c.heap.objects@[k].object.granule()] >= 2
                    && c.unlog[c.heap.objects@[k].slots@[j]] != 1 implies c.satb.dom().contains(
                c.heap.objects@[k].slots@[j],
            ) by {
                if c.heap.objects@[k].object.granule() == o.granule() {
                    assert(k == c.heap.place(o));
                    assert(c.unlog[c.heap.slots(o)[j]] != 0);
                } else {
                    assert(w.s.color[c.heap.objects@[k].object.granule()] >= 2);
                }
            }
        }
    } else {
        cycle_model::covers_fewer(c, w.s.color, v.s.color);
    }
}

/// The mark phase keeps what is to be covered covered.
pub proof fn mark_buffers_covers(c: Snapshot, vec_index: u8, b: BufferWalk)
    requires
        c.wf(),
        b.wf(),
        all_in_heap(c, b.buffers),
        c.covers(b.s.color),
    ensures
        c.covers(mark_buffers(c, vec_index, b).s.color),
        all_in_heap(c, mark_buffers(c, vec_index, b).buffers),
    decreases b.pending().len(),
{
    if buffer::seek(b.buffers, b.bi, b.ei).0 < b.buffers.len() {
        mark_buffer_step_progress(c, vec_index, b);
        let (bi, ei) = buffer::seek(b.buffers, b.bi, b.ei);
        let o = b.buffers[bi][ei];
        if should_mark(b.s, o, vec_index) {
            let w = cycle_model::walk_from(b.s.tagged(o, 0), o, b.visited, 0);
            assert(c.holds(w.stack));
            mark_all_covers(c, w);
        }
        mark_buffers_covers(c, vec_index, mark_buffer_step(c, vec_index, b));
    }
}

/// The scan phase keeps what is to be covered covered.
pub proof fn scan_each_covers(c: Snapshot, w: Walk, xs: Seq<ObjectReference>)
    requires
        c.wf(),
        c.holds(xs),
        c.covers(w.s.color),
    ensures
        c.covers(scan_each(c, w, xs).s.color),
    decreases xs.len(),
{
    if xs.len() > 0 {
        cycle_model::pop_in_heap(c, xs);
        scan_each_covers(c, w, xs.drop_last());
        let v = scan_each(c, w, xs.drop_last());
        scan_all_covers(c, cycle_model::walk_from(v.s, xs.last(), v.visited, v.nested));
    }
}

/// A scan keeps what is to be covered covered, leaves nothing grey that it
/// visits, and makes nothing grey.
pub proof fn scan_all_covers(c: Snapshot, w: Walk)
    requires
        c.wf(),
        c.holds(w.stack),
        c.covers(w.s.color),
    ensures
        c.covers(cycle_model::scan_all(c, w).s.color),
        cycle_model::scan_all(c, w).stack.len() == 0,
        forall|g: usize| #[trigger] cycle_model::scan_all(c, w).s.color[g] == 2 ==> w.s.color[g]
            == 2,
        forall|i: int|
            0 <= i < w.stack.len() ==> cycle_model::scan_all(c, w).s.color_of(
                #[trigger] w.stack[i],
            ) != 2,
    decreases cycle_model::count_all(c.heap, cycle_model::grey(w.s)), w.stack.len(),
{
    if w.stack.len() > 0 {
        cycle_model::scan_step_progress(c, w);
        let v = cycle_model::scan_step(c, w);
        scan_all_covers(c, v);
        let f = cycle_model::scan_all(c, w);
        assert forall|g: usize| #[trigger] f.s.color[g] == 2 implies w.s.color[g] == 2 by {
            assert(v.s.color[g] == 2);
        }
        assert forall|i: int| 0 <= i < w.stack.len() implies f.s.color_of(
            #[trigger] w.stack[i],
        ) != 2 by {
            if i == w.stack.len() - 1 {
                if f.s.color[w.stack[i].granule()] == 2 {
                    assert(v.s.color[w.stack[i].granule()] == 2);
                }
            } else {
                assert(v.stack[i] == w.stack[i]);
            }
        }
    }
}

/// The elements of buffers in the heap are in the heap.
pub proof fn flatten_in_heap(c: Snapshot, buffers: Seq<Seq<ObjectReference>>)
    requires
        all_in_heap(c, buffers),
    ensures
        c.holds(buffers.flatten()),
    decreases buffers.len(),
{
    if buffers.len() > 0 {
        let rest = buffers.drop_first();
        assert forall|i: int, j: int|
            0 <= i < rest.len() && 0 <= j < rest[i].len() implies c.heap.contains(
            #[trigger] rest[i][j],
        ) by {
            assert(c.heap.contains(buffers[i + 1][j]));
        }
        flatten_in_heap(c, rest);
        assert(c.holds(buffers[0])) by {
            assert forall|j: int| 0 <= j < buffers[0].len() implies c.heap.contains(
                #[trigger] buffers[0][j],
            ) by {}
        }
        cycle_model::concat_in_heap(c, buffers[0], rest.flatten());
    }
}

/// The mark phase adds no candidate to the buffers that it walks.
pub proof fn mark_buffers_shrinks(c: Snapshot, vec_index: u8, b: BufferWalk)
    requires
        c.wf(),
        b.wf(),
        all_in_heap(c, b.buffers),
    ensures
        mark_buffers(c, vec_index, b).buffers.flatten().len() <= b.buffers.flatten().len(),
    decreases b.pending().len(),
{
    broadcast use vstd::seq_lib::group_to_multiset_ensures;

    if buffer::seek(b.buffers, b.bi, b.ei).0 < b.buffers.len() {
        mark_buffer_step_progress(c, vec_index, b);
        let (bi, ei) = buffer::seek(b.buffers, b.bi, b.ei);
        let o = b.buffers[bi][ei];
        let f = mark_buffer_step(c, vec_index, b);
        if !should_mark(b.s, o, vec_index) {
            buffer::removal_takes_one_element(b.buffers, bi, ei);
            assert(b.buffers.flatten().to_multiset().len() == b.buffers.flatten().len());
            assert(f.buffers.flatten().to_multiset().len() == f.buffers.flatten().len());
        }
        mark_buffers_shrinks(c, vec_index, f);
    }
}

/// Scanning two lists of candidates one after the other is scanning both in a
/// row.
pub proof fn scan_each_of_concat(
    c: Snapshot,
    w: Walk,
    a: Seq<ObjectReference>,
    b: Seq<ObjectReference>,
)
    ensures
        scan_each(c, scan_each(c, w, a), b) == scan_each(c, w, a + b),
    decreases b.len(),
{
    if b.len() == 0 {
        assert(a + b =~= a);
    } else {
        scan_each_of_concat(c, w, a, b.drop_last());
        assert((a + b).drop_last() =~= a + b.drop_last());
    }
}

/// A scan makes no candidates and leaves no stack.
pub proof fn scan_each_frame(c: Snapshot, w: Walk, xs: Seq<ObjectReference>)
    ensures
        scan_each(c, w, xs).out == w.out,
        scan_each(c, w, xs).stack == w.stack,
    decreases xs.len(),
{
    if xs.len() > 0 {
        scan_each_frame(c, w, xs.drop_last());
    }
}

/// Collecting two lists of candidates one after the other is collecting both in
/// a row.
pub proof fn collect_each_of_concat(
    c: Snapshot,
    w: Walk,
    a: Seq<ObjectReference>,
    b: Seq<ObjectReference>,
)
    ensures
        ({
            let v = collect_each(c, w, a);
            let f = collect_each(c, carry(v.s, v.visited, 0), b);
            let r = collect_each(c, w, a + b);
            &&& r.s == f.s
            &&& r.visited == f.visited
            &&& r.out == v.out + f.out
        }),
    decreases b.len(),
{
    let v = collect_each(c, w, a);
    if b.len() == 0 {
        assert(a + b =~= a);
        assert(v.out + Seq::<ObjectReference>::empty() =~= v.out);
    } else {
        collect_each_of_concat(c, w, a, b.drop_last());
        assert((a + b).drop_last() =~= a + b.drop_last());
        let f = collect_each(c, carry(v.s, v.visited, 0), b.drop_last());
        let g = cycle_model::collect_whites_all(
            c,
            cycle_model::walk_from(f.s, b.last(), f.visited, 0),
        );
        assert(v.out + f.out + g.out =~= v.out + (f.out + g.out));
    }
}

} // verus!
