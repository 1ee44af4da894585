//! What reporting a part of the object graph leaves behind.

use crate::plan::lxr::cycle_model;
use crate::plan::lxr::graphs_project;
use crate::plan::lxr::graphs_project::{GraphWalk, RecordView};
use crate::util::address::ObjectReference;
use crate::vm::heap::Heap;
use vstd::prelude::*;

verus! {

/// What `o` refers to.
pub open spec fn sons(heap: Heap, o: ObjectReference) -> Seq<ObjectReference> {
    cycle_model::refs(heap, heap.slots(o))
}

/// Marks of which none is set.
pub open spec fn no_marks() -> Map<usize, u8> {
    Map::total(|g: usize| 0u8)
}

/// A report takes no mark away, and sets none but to one.
proof fn report_keeps_marks(heap: Heap, rc: Map<usize, u8>, w: GraphWalk)
    requires
        heap.wf(),
        graphs_project::in_heap(heap, w.stack),
        w.marks.dom() == Set::<usize>::full(),
    ensures
        graphs_project::report_all(heap, rc, w).marks.dom() == Set::<usize>::full(),
        forall|g: usize|
            #![trigger graphs_project::report_all(heap, rc, w).marks[g]]
            graphs_project::report_all(heap, rc, w).marks[g] == w.marks[g] || (w.marks[g] == 0
                && graphs_project::report_all(heap, rc, w).marks[g] == 1),
    decreases
            cycle_model::count_all(heap, graphs_project::with_mark(w.marks, 0)),
            w.stack.len(),
{
    if w.stack.len() > 0 {
        let v = graphs_project::report_step(heap, rc, w);
        graphs_project::report_step_progress(heap, rc, w);
        assert(v.marks.dom() =~= Set::<usize>::full());
        report_keeps_marks(heap, rc, v);
    }
}

/// A report marks nothing but what a set holds that holds the stack, what is
/// marked already, and with a marked object also what it refers to.
proof fn report_marks_least(
    heap: Heap,
    rc: Map<usize, u8>,
    w: GraphWalk,
    z: spec_fn(usize) -> bool,
)
    requires
        heap.wf(),
        graphs_project::in_heap(heap, w.stack),
        w.marks.dom() == Set::<usize>::full(),
        forall|i: int| 0 <= i < w.stack.len() ==> z((#[trigger] w.stack[i]).granule()),
        forall|g: usize| #[trigger] w.marks[g] != 0 ==> z(g),
        forall|o: ObjectReference, i: int|
            #![trigger sons(heap, o)[i]]
            heap.contains(o) && z(o.granule()) && graphs_project::report_all(
                heap,
                rc,
                w,
            ).marks[o.granule()] != 0 && 0 <= i < sons(heap, o).len() ==> z(
                sons(heap, o)[i].granule(),
            ),
    ensures
        forall|g: usize|
            #![trigger graphs_project::report_all(heap, rc, w).marks[g]]
            graphs_project::report_all(heap, rc, w).marks[g] != 0 ==> z(g),
    decreases
            cycle_model::count_all(heap, graphs_project::with_mark(w.marks, 0)),
            w.stack.len(),
{
    if w.stack.len() > 0 {
        let v = graphs_project::report_step(heap, rc, w);
        let o = w.stack.last();
        graphs_project::report_step_progress(heap, rc, w);
        assert(v.marks.dom() =~= Set::<usize>::full());
        assert(graphs_project::report_all(heap, rc, w) == graphs_project::report_all(heap, rc, v));
        assert(z(o.granule()));
        report_keeps_marks(heap, rc, v);
        if w.marks[o.granule()] == 0 {
            let n = w.stack.len() - 1;
            assert(graphs_project::report_all(heap, rc, v).marks[o.granule()] != 0);
            assert forall|i: int| 0 <= i < v.stack.len() implies z(
                (#[trigger] v.stack[i]).granule(),
            ) by {
                if i < n {
                    assert(v.stack[i] == w.stack[i]);
                } else {
                    assert(v.stack[i] == sons(heap, o)[i - n]);
                }
            }
            assert forall|g: usize| #[trigger] v.marks[g] != 0 implies z(g) by {
                if g != o.granule() {
                    assert(w.marks[g] != 0);
                }
            }
        } else {
            assert forall|i: int| 0 <= i < v.stack.len() implies z(
                (#[trigger] v.stack[i]).granule(),
            ) by {
                assert(v.stack[i] == w.stack[i]);
            }
        }
        report_marks_least(heap, rc, v, z);
    }
}

/// Whether everything that a marked object refers to is marked or on the stack.
pub open spec fn marked_sons_follow(heap: Heap, w: GraphWalk) -> bool {
    forall|o: ObjectReference, i: int|
        #![trigger sons(heap, o)[i]]
        heap.contains(o) && w.marks[o.granule()] != 0 && 0 <= i < sons(heap, o).len()
            ==> w.marks[sons(heap, o)[i].granule()] != 0 || w.stack.contains(sons(heap, o)[i])
}

/// A report is complete: it marks what is on the stack, and with an object also
/// what the object refers to.
pub proof fn report_is_complete(heap: Heap, rc: Map<usize, u8>, w: GraphWalk)
    requires
        heap.wf(),
        graphs_project::in_heap(heap, w.stack),
        w.marks.dom() == Set::<usize>::full(),
        marked_sons_follow(heap, w),
    ensures
        forall|i: int|
            #![trigger w.stack[i]]
            0 <= i < w.stack.len() ==> graphs_project::report_all(
                heap,
                rc,
                w,
            ).marks[w.stack[i].granule()] != 0,
        forall|o: ObjectReference, i: int|
            #![trigger sons(heap, o)[i]]
            heap.contains(o) && graphs_project::report_all(heap, rc, w).marks[o.granule()] != 0
                && 0 <= i < sons(heap, o).len() ==> graphs_project::report_all(
                heap,
                rc,
                w,
            ).marks[sons(heap, o)[i].granule()] != 0,
    decreases
            cycle_model::count_all(heap, graphs_project::with_mark(w.marks, 0)),
            w.stack.len(),
{
    if w.stack.len() > 0 {
        let v = graphs_project::report_step(heap, rc, w);
        let o = w.stack.last();
        let rest = w.stack.drop_last();
        graphs_project::report_step_progress(heap, rc, w);
        assert(v.marks.dom() =~= Set::<usize>::full());
        assert(v.marks[o.granule()] != 0);
        assert forall|x: ObjectReference| w.stack.contains(x) && x != o implies rest.contains(
            x,
        ) by {
            let k = choose|k: int| 0 <= k < w.stack.len() && w.stack[k] == x;
            assert(rest[k] == x);
        }
        assert forall|x: ObjectReference| rest.contains(x) implies #[trigger] v.stack.contains(
            x,
        ) by {
            let k = choose|k: int| 0 <= k < rest.len() && rest[k] == x;
            assert(v.stack[k] == x);
        }
        assert forall|q: ObjectReference, i: int|
            #![trigger sons(heap, q)[i]]
            heap.contains(q) && v.marks[q.granule()] != 0 && 0 <= i < sons(heap, q).len() implies v.marks[sons(
            heap,
            q,
        )[i].granule()] != 0 || v.stack.contains(sons(heap, q)[i]) by {
            let x = sons(heap, q)[i];
            if w.marks[o.granule()] == 0 && q.granule() == o.granule() {
                assert(q == o);
                assert(v.stack[rest.len() + i] == x);
            } else {
                assert(w.marks[x.granule()] != 0 || w.stack.contains(x));
            }
        }
        report_is_complete(heap, rc, v);
        report_keeps_marks(heap, rc, v);
        let end = graphs_project::report_all(heap, rc, v);
        assert(graphs_project::report_all(heap, rc, w) == end);
        assert forall|i: int| #![trigger w.stack[i]] 0 <= i < w.stack.len() implies end.marks[w.stack[i].granule()]
            != 0 by {
            if i < rest.len() {
                assert(v.stack[i] == w.stack[i]);
            } else {
                assert(end.marks[o.granule()] != 0);
            }
        }
    }
}

/// Whether everything that an object refers to whose mark was swept away is not
/// marked or on the stack.
pub open spec fn swept_sons_follow(heap: Heap, base: Map<usize, u8>, w: GraphWalk) -> bool {
    forall|o: ObjectReference, i: int|
        #![trigger sons(heap, o)[i]]
        heap.contains(o) && base[o.granule()] == 1 && w.marks[o.granule()] != 1 && 0 <= i < sons(
            heap,
            o,
        ).len() ==> w.marks[sons(heap, o)[i].granule()] != 1 || w.stack.contains(sons(heap, o)[i])
}

/// A sweep sets no mark, leaves nothing marked that was on the stack, and with
/// an object unmarks what it refers to.
proof fn sweep_follows_sons(heap: Heap, base: Map<usize, u8>, w: GraphWalk)
    requires
        heap.wf(),
        graphs_project::in_heap(heap, w.stack),
        w.marks.dom() == Set::<usize>::full(),
        swept_sons_follow(heap, base, w),
    ensures
        graphs_project::sweep_all(heap, w).marks.dom() == Set::<usize>::full(),
        swept_sons_follow(heap, base, graphs_project::sweep_all(heap, w)),
        graphs_project::sweep_all(heap, w).stack.len() == 0,
        forall|g: usize|
            #![trigger graphs_project::sweep_all(heap, w).marks[g]]
            graphs_project::sweep_all(heap, w).marks[g] == w.marks[g] || (w.marks[g] == 1
                && graphs_project::sweep_all(heap, w).marks[g] == 0),
        forall|i: int|
            #![trigger w.stack[i]]
            0 <= i < w.stack.len() ==> graphs_project::sweep_all(
                heap,
                w,
            ).marks[w.stack[i].granule()] != 1,
    decreases
            cycle_model::count_all(heap, graphs_project::with_mark(w.marks, 1)),
            w.stack.len(),
{
    if w.stack.len() > 0 {
        let v = graphs_project::sweep_step(heap, w);
        let o = w.stack.last();
        let rest = w.stack.drop_last();
        graphs_project::sweep_step_progress(heap, w);
        assert(v.marks.dom() =~= Set::<usize>::full());
        assert forall|x: ObjectReference| w.stack.contains(x) && x != o implies rest.contains(
            x,
        ) by {
            let k = choose|k: int| 0 <= k < w.stack.len() && w.stack[k] == x;
            assert(rest[k] == x);
        }
        assert forall|x: ObjectReference| rest.contains(x) implies #[trigger] v.stack.contains(
            x,
        ) by {
            let k = choose|k: int| 0 <= k < rest.len() && rest[k] == x;
            assert(v.stack[k] == x);
        }
        assert forall|q: ObjectReference, i: int|
            #![trigger sons(heap, q)[i]]
            heap.contains(q) && base[q.granule()] == 1 && v.marks[q.granule()] != 1 && 0 <= i
                < sons(heap, q).len() implies v.marks[sons(heap, q)[i].granule()] != 1
            || v.stack.contains(sons(heap, q)[i]) by {
            let x = sons(heap, q)[i];
            if w.marks[o.granule()] == 1 && q.granule() == o.granule() {
                assert(q == o);
                assert(v.stack[rest.len() + i] == x);
            } else {
                assert(w.marks[x.granule()] != 1 || w.stack.contains(x));
                if x == o {
                    assert(v.marks[x.granule()] != 1);
                }
            }
        }
        sweep_follows_sons(heap, base, v);
        let end = graphs_project::sweep_all(heap, v);
        assert(graphs_project::sweep_all(heap, w) == end);
        assert forall|i: int| #![trigger w.stack[i]] 0 <= i < w.stack.len() implies end.marks[w.stack[i].granule()]
            != 1 by {
            if i < rest.len() {
                assert(v.stack[i] == w.stack[i]);
            } else {
                assert(v.marks[o.granule()] != 1);
            }
        }
    }
}

/// The sweep undoes the report: where nothing was marked, reporting a candidate
/// and sweeping from it leaves nothing marked.
pub proof fn sweep_undoes_report(
    heap: Heap,
    rc: Map<usize, u8>,
    cand: ObjectReference,
    objects: Seq<RecordView>,
)
    requires
        heap.wf(),
        heap.contains(cand),
    ensures
        graphs_project::sweep_all(
            heap,
            GraphWalk {
                marks: graphs_project::report_all(
                    heap,
                    rc,
                    GraphWalk { marks: no_marks(), stack: seq![cand], objects },
                ).marks,
                stack: seq![cand],
                objects: Seq::empty(),
            },
        ).marks == no_marks(),
{
    let w = GraphWalk { marks: no_marks(), stack: seq![cand], objects };
    let reported = graphs_project::report_all(heap, rc, w).marks;
    let v = GraphWalk { marks: reported, stack: seq![cand], objects: Seq::empty() };
    let end = graphs_project::sweep_all(heap, v);
    assert(w.marks.dom() =~= Set::<usize>::full());
    report_keeps_marks(heap, rc, w);
    sweep_follows_sons(heap, reported, v);
    assert(v.stack[0] == cand);
    let z = |g: usize| end.marks[g] != 1;
    assert forall|o: ObjectReference, i: int|
        #![trigger sons(heap, o)[i]]
        heap.contains(o) && z(o.granule()) && reported[o.granule()] != 0 && 0 <= i < sons(
            heap,
            o,
        ).len() implies z(sons(heap, o)[i].granule()) by {
        assert(reported[o.granule()] == 1);
        assert(!end.stack.contains(sons(heap, o)[i]));
    }
    report_marks_least(heap, rc, w, z);
    assert forall|g: usize| end.marks[g] == no_marks()[g] by {
        if reported[g] != 0 {
            assert(z(g));
        }
    }
    assert(end.marks =~= no_marks());
}

} // verus!
