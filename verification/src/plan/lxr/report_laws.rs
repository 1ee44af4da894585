//! What reports say of the objects and candidates that they name.

use crate::plan::lxr::cycle_model;
use crate::plan::lxr::cycle_model::{CycleState, Snapshot};
use crate::plan::lxr::cycle_phases;
use crate::plan::lxr::cycle_phases::ReportWalk;
use crate::plan::lxr::gc_work;
use crate::plan::lxr::global::Lxr;
use crate::plan::lxr::graphs_project;
use crate::plan::lxr::graphs_project::{GcCycleReport, GraphWalk, HeapObjectRecord, RecordView};
use crate::util::address::ObjectReference;
use crate::vm::heap::Heap;
use vstd::prelude::*;

verus! {

/// Those of `slots` that hold a reference.
pub open spec fn full_slots(
    fields: Map<usize, Option<ObjectReference>>,
    slots: Seq<usize>,
) -> Seq<usize> {
    slots.filter(|a: usize| fields[a] is Some)
}

/// What an object refers to is what its slots hold that are not empty, in the
/// order of the slots.
pub proof fn refs_are_what_slots_hold(heap: Heap, slots: Seq<usize>)
    ensures
        cycle_model::refs(heap, slots) == full_slots(heap.fields@, slots).map_values(
            |a: usize| heap.fields@[a]->0,
        ),
    decreases slots.len(),
{
    reveal(Seq::filter);
    if slots.len() > 0 {
        refs_are_what_slots_hold(heap, slots.drop_last());
    }
    assert(cycle_model::refs(heap, slots) =~= full_slots(heap.fields@, slots).map_values(
        |a: usize| heap.fields@[a]->0,
    ));
}

/// What an object referred to when the collection began is what its slots held
/// that were not empty: an unlogged slot holds it still, of a logged slot it was
/// recorded.
pub proof fn old_refs_are_what_slots_held(c: Snapshot, slots: Seq<usize>)
    ensures
        ({
            let held = |a: usize|
                if c.unlog[a] == 1 {
                    c.heap.fields@[a]
                } else {
                    c.satb[a]
                };
            cycle_model::satb_refs(c, slots) == slots.filter(|a: usize| held(a) is Some).map_values(
                |a: usize| held(a)->0,
            )
        }),
    decreases slots.len(),
{
    reveal(Seq::filter);
    let held = |a: usize|
        if c.unlog[a] == 1 {
            c.heap.fields@[a]
        } else {
            c.satb[a]
        };
    if slots.len() > 0 {
        old_refs_are_what_slots_held(c, slots.drop_last());
    }
    assert(cycle_model::satb_refs(c, slots) =~= slots.filter(
        |a: usize| held(a) is Some,
    ).map_values(|a: usize| held(a)->0));
}

/// Whether the record says what there is to say of its object: the references of
/// the object are those of its count but one, its sons are what its slots hold,
/// and there is nothing else.
pub open spec fn describes(heap: Heap, rc: Map<usize, u8>, r: RecordView) -> bool {
    let o = ObjectReference { addr: r.id };
    let n = rc[(r.id / 16) as usize];
    let full = full_slots(heap.fields@, heap.info(o).slots@);
    &&& heap.contains(o)
    &&& n > 0 ==> r.refcount == n - 1
    &&& n == 0 ==> r.refcount == 255
    &&& r.sons.len() == full.len()
    &&& forall|i: int|
        #![trigger r.sons[i]]
        0 <= i < full.len() ==> heap.fields@[full[i]] == Some(ObjectReference { addr: r.sons[i] })
    &&& forall|k: Seq<char>| !r.extra.dom().contains(k)
}

/// Whether the records behind the first `n` are one for each granule that `new`
/// marks and `old` does not, and each describes its object.
pub open spec fn one_record_for_each_mark(
    heap: Heap,
    rc: Map<usize, u8>,
    old: Map<usize, u8>,
    new: Map<usize, u8>,
    records: Seq<RecordView>,
    n: int,
) -> bool {
    &&& forall|i: int|
        #![trigger records[i]]
        n <= i < records.len() ==> {
            &&& describes(heap, rc, records[i])
            &&& old[(records[i].id / 16) as usize] == 0
            &&& new[(records[i].id / 16) as usize] == 1
        }
    &&& forall|i: int, j: int|
        #![trigger records[i], records[j]]
        n <= i < j < records.len() ==> records[i].id / 16 != records[j].id / 16
    &&& forall|g: usize| #[trigger]
        new[g] != old[g] ==> exists|i: int|
            #![trigger records[i]]
            n <= i < records.len() && records[i].id / 16 == g
    &&& forall|g: usize| #[trigger] new[g] == old[g] || old[g] == 0 && new[g] == 1
}

/// What is reported of an object describes it.
proof fn report_describes(heap: Heap, rc: Map<usize, u8>, o: ObjectReference)
    requires
        heap.contains(o),
    ensures
        describes(heap, rc, graphs_project::report_of(heap, rc, o)),
        graphs_project::report_of(heap, rc, o).id == o.addr,
{
    let r = graphs_project::report_of(heap, rc, o);
    let slots = heap.info(o).slots@;
    let full = full_slots(heap.fields@, slots);
    refs_are_what_slots_hold(heap, slots);
    assert(ObjectReference { addr: r.id } == o);
    let p = |a: usize| heap.fields@[a] is Some;
    assert forall|i: int|
        #![trigger r.sons[i]]
        0 <= i < full.len() implies heap.fields@[full[i]] == Some(
        ObjectReference { addr: r.sons[i] },
    ) by {
        slots.lemma_filter_pred(p, i);
        assert(p(full[i]));
        assert(cycle_model::refs(heap, slots)[i] == heap.fields@[full[i]]->0);
    }
}

/// Reporting a part of the graph adds one record for each granule that it marks,
/// and the record describes its object: its address, the references that it has
/// beside the one that keeps it counted, and what its slots hold. What was
/// reported before stays.
pub proof fn report_names_each_object_once(heap: Heap, rc: Map<usize, u8>, w: GraphWalk)
    requires
        heap.wf(),
        graphs_project::in_heap(heap, w.stack),
    ensures
        ({
            let f = graphs_project::report_all(heap, rc, w);
            &&& w.objects.len() <= f.objects.len()
            &&& f.objects.take(w.objects.len() as int) == w.objects
            &&& one_record_for_each_mark(
                heap,
                rc,
                w.marks,
                f.marks,
                f.objects,
                w.objects.len() as int,
            )
        }),
    decreases
            cycle_model::count_all(heap, graphs_project::with_mark(w.marks, 0)),
            w.stack.len(),
{
    let f = graphs_project::report_all(heap, rc, w);
    let n = w.objects.len() as int;
    if w.stack.len() > 0 {
        let v = graphs_project::report_step(heap, rc, w);
        let o = w.stack.last();
        assert(heap.contains(o));
        graphs_project::report_step_progress(heap, rc, w);
        report_names_each_object_once(heap, rc, v);
        if w.marks[o.granule()] == 0 {
            report_describes(heap, rc, o);
            let r = graphs_project::report_of(heap, rc, o);
            assert(f.objects.take(n + 1) == v.objects);
            assert(f.objects[n] == f.objects.take(n + 1)[n]);
            assert(f.objects[n] == r);
            assert(f.objects.take(n) =~= w.objects) by {
                assert forall|i: int| 0 <= i < n implies f.objects[i] == w.objects[i] by {
                    assert(f.objects[i] == f.objects.take(n + 1)[i]);
                }
            }
            assert(f.marks[o.granule()] == 1) by {
                assert(v.marks[o.granule()] == 1);
                assert(f.marks[o.granule()] == v.marks[o.granule()] || v.marks[o.granule()] == 0);
            }
            assert forall|i: int| #![trigger f.objects[i]] n <= i < f.objects.len() implies {
                &&& describes(heap, rc, f.objects[i])
                &&& w.marks[(f.objects[i].id / 16) as usize] == 0
                &&& f.marks[(f.objects[i].id / 16) as usize] == 1
            } by {}
            assert forall|g: usize| #[trigger] f.marks[g] != w.marks[g] implies exists|i: int|
                #![trigger f.objects[i]]
                n <= i < f.objects.len() && f.objects[i].id / 16 == g by {
                if g == o.granule() {
                    assert(f.objects[n].id / 16 == g);
                } else {
                    assert(f.marks[g] != v.marks[g]);
                }
            }
            assert forall|g: usize| #[trigger] f.marks[g] == w.marks[g] || w.marks[g] == 0
                && f.marks[g] == 1 by {
                assert(f.marks[g] == v.marks[g] || v.marks[g] == 0 && f.marks[g] == 1);
            }
        }
    } else {
        assert(f.objects.take(n) =~= w.objects);
    }
}

/// Two reports, one after the other.
proof fn reports_add_up(
    heap: Heap,
    rc: Map<usize, u8>,
    a: Map<usize, u8>,
    b: Map<usize, u8>,
    c: Map<usize, u8>,
    records: Seq<RecordView>,
    n: int,
    m: int,
)
    requires
        0 <= n <= m <= records.len(),
        one_record_for_each_mark(heap, rc, a, b, records.take(m), n),
        one_record_for_each_mark(heap, rc, b, c, records, m),
    ensures
        one_record_for_each_mark(heap, rc, a, c, records, n),
{
    let p = records.take(m);
    assert forall|i: int| 0 <= i < m implies #[trigger] records[i] == p[i] by {}
    assert forall|g: usize| #[trigger] c[g] == a[g] || a[g] == 0 && c[g] == 1 by {
        assert(c[g] == b[g] || b[g] == 0 && c[g] == 1);
        assert(b[g] == a[g] || a[g] == 0 && b[g] == 1);
    }
    assert forall|i: int| #![trigger records[i]] n <= i < records.len() implies {
        &&& describes(heap, rc, records[i])
        &&& a[(records[i].id / 16) as usize] == 0
        &&& c[(records[i].id / 16) as usize] == 1
    } by {
        let g = (records[i].id / 16) as usize;
        assert(c[g] == b[g] || b[g] == 0 && c[g] == 1);
        assert(b[g] == a[g] || a[g] == 0 && b[g] == 1);
        if i < m {
            assert(p[i] == records[i]);
        }
    }
    assert forall|i: int, j: int|
        #![trigger records[i], records[j]]
        n <= i < j < records.len() implies records[i].id / 16 != records[j].id / 16 by {
        if i < m {
            assert(p[i] == records[i]);
            assert(b[(p[i].id / 16) as usize] == 1);
        }
        if j < m {
            assert(p[j] == records[j]);
        } else {
            assert(b[(records[j].id / 16) as usize] == 0);
        }
    }
    assert forall|g: usize| #[trigger] c[g] != a[g] implies exists|i: int|
        #![trigger records[i]]
        n <= i < records.len() && records[i].id / 16 == g by {
        if b[g] != a[g] {
            let i = choose|i: int|
                #![trigger p[i]]
                n <= i < p.len() && p[i].id / 16 == g;
            assert(records[i] == p[i]);
        } else {
            assert(c[g] != b[g]);
        }
    }
}

/// Those of the candidates that still carry the tag and that nothing refers to
/// strongly.
pub open spec fn to_be_marked(
    cand: Map<usize, u8>,
    strong: Map<usize, u8>,
    tag: u8,
    xs: Seq<ObjectReference>,
) -> Seq<ObjectReference> {
    xs.filter(
        |o: ObjectReference|
            cand[(o.addr / 16) as usize] == tag && strong[(o.addr / 16) as usize] == 0,
    )
}

/// Whether the report `f`, which began as `r`, names the candidates of `xs` that
/// carry the tag and that nothing refers to strongly, in order, and describes
/// each object that it marks once.
pub open spec fn reports_on(
    heap: Heap,
    s: CycleState,
    tag: u8,
    r: ReportWalk,
    f: ReportWalk,
    xs: Seq<ObjectReference>,
) -> bool {
    &&& f.candidates == r.candidates + to_be_marked(s.cand, s.strong, tag, xs).map_values(
        |o: ObjectReference| o.addr,
    )
    &&& r.objects.len() <= f.objects.len()
    &&& f.objects.take(r.objects.len() as int) == r.objects
    &&& one_record_for_each_mark(
        heap,
        s.counts.rc,
        r.marks,
        f.marks,
        f.objects,
        r.objects.len() as int,
    )
}

/// A report on candidates names those that are to be marked from, in order, and
/// describes each object around them once.
pub proof fn report_names_candidates(
    heap: Heap,
    s: CycleState,
    tag: u8,
    r: ReportWalk,
    xs: Seq<ObjectReference>,
)
    requires
        heap.wf(),
        graphs_project::in_heap(heap, xs),
    ensures
        reports_on(heap, s, tag, r, cycle_phases::report_each(heap, s, tag, r, xs), xs),
    decreases xs.len(),
{
    reveal(Seq::filter);
    let f = cycle_phases::report_each(heap, s, tag, r, xs);
    let n = r.objects.len() as int;
    let rc = s.counts.rc;
    if xs.len() == 0 {
        assert(f.objects.take(n) =~= r.objects);
        assert(f.candidates =~= r.candidates + to_be_marked(s.cand, s.strong, tag, xs).map_values(
            |o: ObjectReference| o.addr,
        ));
    } else {
        let p = xs.drop_last();
        let o = xs.last();
        assert forall|i: int| 0 <= i < p.len() implies heap.contains(#[trigger] p[i]) by {
            assert(p[i] == xs[i]);
        }
        report_names_candidates(heap, s, tag, r, p);
        let v = cycle_phases::report_each(heap, s, tag, r, p);
        let q = |o: ObjectReference|
            s.cand[(o.addr / 16) as usize] == tag && s.strong[(o.addr / 16) as usize] == 0;
        assert(q(o) == cycle_phases::should_mark(s, o, tag));
        if cycle_phases::should_mark(s, o, tag) {
            let w = GraphWalk { marks: v.marks, stack: seq![o], objects: v.objects };
            assert(heap.contains(w.stack[0]));
            report_names_each_object_once(heap, rc, w);
            assert(f.objects.take(v.objects.len() as int) == v.objects);
            reports_add_up(
                heap,
                rc,
                r.marks,
                v.marks,
                f.marks,
                f.objects,
                n,
                v.objects.len() as int,
            );
            assert(f.objects.take(n) =~= v.objects.take(n)) by {
                assert forall|i: int| 0 <= i < n implies f.objects[i] == v.objects[i] by {
                    assert(f.objects[i] == f.objects.take(v.objects.len() as int)[i]);
                }
            }
            assert(to_be_marked(s.cand, s.strong, tag, xs) == to_be_marked(
                s.cand,
                s.strong,
                tag,
                p,
            ).push(o));
        }
        assert(f.candidates =~= r.candidates + to_be_marked(s.cand, s.strong, tag, xs).map_values(
            |o: ObjectReference| o.addr,
        ));
    }
}

/// Whether the record holds what the view of one says.
pub open spec fn same_record(r: HeapObjectRecord, v: RecordView) -> bool {
    &&& r.id == v.id
    &&& r.refcount == v.refcount
    &&& r.sons@ == v.sons
    &&& graphs_project::json_entries(r.extra) == v.extra
}

/// A collection over one pool finishes one report: that of the plan, with the
/// candidates of the pool that are to be marked from, and one record for each
/// object that it marks.
pub proof fn pool_report_is_finished(
    old: Lxr,
    new: Lxr,
    heap: Heap,
    tag: u8,
    xs: Seq<ObjectReference>,
)
    requires
        heap.wf(),
        graphs_project::in_heap(heap, xs),
        gc_work::wrote_report(old, new, heap, tag, xs),
    ensures
        new.finished_reports@.len() == old.finished_reports@.len() + 1,
        forall|k: int|
            0 <= k < old.finished_reports@.len() ==> #[trigger] new.finished_reports@[k]
                == old.finished_reports@[k],
        ({
            let report = new.finished_reports@.last();
            let r = old.graph_reporter;
            let views = Seq::new(report.objects@.len(), |i: int| report.objects@[i]@);
            &&& report.candidates@ == r.candidates@ + to_be_marked(
                old.tables.candidates_status@,
                old.tables.strong_rc@,
                tag,
                xs,
            ).map_values(|o: ObjectReference| o.addr)
            &&& r.objects@.len() <= report.objects@.len()
            &&& forall|i: int|
                #![trigger report.objects@[i]]
                0 <= i < r.objects@.len() ==> report.objects@[i]@ == r.objects@[i]@
            &&& one_record_for_each_mark(
                heap,
                old.tables.rc@,
                old.graph_report_mark@,
                new.graph_report_mark@,
                views,
                r.objects@.len() as int,
            )
            &&& report.roots == r.roots && report.allocated == r.allocated && report.rc_freed
                == r.rc_freed && report.cycle_collector_freed == r.cycle_collector_freed
        }),
{
    let report = new.finished_reports@.last();
    let views = Seq::new(report.objects@.len(), |i: int| report.objects@[i]@);
    let r = gc_work::reported_so_far(old);
    report_names_candidates(heap, old.cycle_state(), tag, r, xs);
    let f = cycle_phases::report_each(heap, old.cycle_state(), tag, r, xs);
    assert(views =~= f.objects);
    assert forall|i: int|
        #![trigger report.objects@[i]]
        0 <= i < old.graph_reporter.objects@.len() implies report.objects@[i]@
        == old.graph_reporter.objects@[i]@ by {
        assert(views[i] == f.objects[i]);
        assert(f.objects.take(r.objects.len() as int)[i] == r.objects[i]);
    }
}

/// A record says of its object what its fields say.
pub proof fn record_view_is_record(r: HeapObjectRecord)
    ensures
        same_record(r, r@),
{
}

/// Whether the report has nothing to say but of objects and candidates, and
/// begins anew.
pub open spec fn new_report_on(
    heap: Heap,
    lxr: Lxr,
    tag: u8,
    marks: Map<usize, u8>,
    new_marks: Map<usize, u8>,
    report: GcCycleReport,
    xs: Seq<ObjectReference>,
) -> bool {
    &&& report.candidates@ == to_be_marked(
        lxr.tables.candidates_status@,
        lxr.tables.strong_rc@,
        tag,
        xs,
    ).map_values(|o: ObjectReference| o.addr)
    &&& one_record_for_each_mark(
        heap,
        lxr.tables.rc@,
        marks,
        new_marks,
        Seq::new(report.objects@.len(), |i: int| report.objects@[i]@),
        0,
    )
    &&& report.roots@.len() == 0 && report.allocated@.len() == 0 && report.rc_freed@.len() == 0
        && report.cycle_collector_freed@.len() == 0
}

/// A new report on the candidates of a pool says what there is to say of them.
proof fn new_report_says(
    heap: Heap,
    lxr: Lxr,
    tag: u8,
    marks: Map<usize, u8>,
    report: GcCycleReport,
    xs: Seq<ObjectReference>,
)
    requires
        heap.wf(),
        graphs_project::in_heap(heap, xs),
        gc_work::says_nothing_else(report),
        gc_work::report_says(
            report,
            cycle_phases::report_each(
                heap,
                gc_work::unreported(lxr.cycle_state()),
                tag,
                gc_work::report_from(marks),
                xs,
            ),
        ),
    ensures
        new_report_on(
            heap,
            lxr,
            tag,
            marks,
            cycle_phases::report_each(
                heap,
                gc_work::unreported(lxr.cycle_state()),
                tag,
                gc_work::report_from(marks),
                xs,
            ).marks,
            report,
            xs,
        ),
{
    let s = gc_work::unreported(lxr.cycle_state());
    let r = gc_work::report_from(marks);
    report_names_candidates(heap, s, tag, r, xs);
    let f = cycle_phases::report_each(heap, s, tag, r, xs);
    assert(Seq::new(report.objects@.len(), |i: int| report.objects@[i]@) =~= f.objects);
    let added = to_be_marked(s.cand, s.strong, tag, xs).map_values(|o: ObjectReference| o.addr);
    assert(r.candidates + added =~= added);
}

/// A collection over all pools finishes three reports, in the order in which the
/// pools are visited. The first goes on with the report of the plan, the others
/// begin anew. No object is described twice in all of them: each goes on with the
/// marks of the one before.
pub proof fn all_reports_are_finished(
    old: Lxr,
    new: Lxr,
    heap: Heap,
    d: (Seq<Seq<ObjectReference>>, Seq<Seq<ObjectReference>>, Seq<Seq<ObjectReference>>),
) -> (marks: (Map<usize, u8>, Map<usize, u8>))
    requires
        heap.wf(),
        old.curr_vec < 3,
        graphs_project::in_heap(heap, d.0.flatten()),
        graphs_project::in_heap(heap, d.1.flatten()),
        graphs_project::in_heap(heap, d.2.flatten()),
        gc_work::wrote_all_reports(old, new, heap, d),
    ensures
        ({
            let n = old.finished_reports@.len() as int;
            let curr = old.curr_vec;
            let r = old.graph_reporter;
            let first = new.finished_reports@[n];
            &&& new.finished_reports@.len() == n + 3
            &&& forall|k: int|
                0 <= k < n ==> #[trigger] new.finished_reports@[k] == old.finished_reports@[k]
            &&& first.candidates@ == r.candidates@ + to_be_marked(
                old.tables.candidates_status@,
                old.tables.strong_rc@,
                ((curr + 1) % 3 + 1) as u8,
                d.0.flatten(),
            ).map_values(|o: ObjectReference| o.addr)
            &&& r.objects@.len() <= first.objects@.len()
            &&& forall|i: int|
                #![trigger first.objects@[i]]
                0 <= i < r.objects@.len() ==> first.objects@[i]@ == r.objects@[i]@
            &&& one_record_for_each_mark(
                heap,
                old.tables.rc@,
                old.graph_report_mark@,
                marks.0,
                Seq::new(first.objects@.len(), |i: int| first.objects@[i]@),
                r.objects@.len() as int,
            )
            &&& first.roots == r.roots && first.allocated == r.allocated && first.rc_freed
                == r.rc_freed && first.cycle_collector_freed == r.cycle_collector_freed
            &&& new_report_on(
                heap,
                old,
                ((curr + 2) % 3 + 1) as u8,
                marks.0,
                marks.1,
                new.finished_reports@[n + 1],
                d.1.flatten(),
            )
            &&& new_report_on(
                heap,
                old,
                (curr + 1) as u8,
                marks.1,
                new.graph_report_mark@,
                new.finished_reports@[n + 2],
                d.2.flatten(),
            )
        }),
{
    let n = old.finished_reports@.len() as int;
    let curr = old.curr_vec;
    let s = old.cycle_state();
    let r = gc_work::reported_so_far(old);
    let first = new.finished_reports@[n];
    let tag0 = ((curr + 1) % 3 + 1) as u8;
    let tag1 = ((curr + 2) % 3 + 1) as u8;
    let tag2 = (curr + 1) as u8;
    assert((gc_work::visited_pool(curr, 0) + 1) as u8 == tag0);
    assert((gc_work::visited_pool(curr, 1) + 1) as u8 == tag1);
    assert((curr + 3) % 3 == curr);
    assert((gc_work::visited_pool(curr, 2) + 1) as u8 == tag2);
    let w0 = cycle_phases::report_each(heap, s, tag0, r, d.0.flatten());
    let w1 = cycle_phases::report_each(
        heap,
        gc_work::unreported(s),
        tag1,
        gc_work::report_from(w0.marks),
        d.1.flatten(),
    );
    report_names_candidates(heap, s, tag0, r, d.0.flatten());
    let views = Seq::new(first.objects@.len(), |i: int| first.objects@[i]@);
    assert(views =~= w0.objects);
    assert forall|i: int|
        #![trigger first.objects@[i]]
        0 <= i < old.graph_reporter.objects@.len() implies first.objects@[i]@
        == old.graph_reporter.objects@[i]@ by {
        assert(views[i] == w0.objects[i]);
        assert(w0.objects.take(r.objects.len() as int)[i] == r.objects[i]);
    }
    new_report_says(heap, old, tag1, w0.marks, new.finished_reports@[n + 1], d.1.flatten());
    new_report_says(heap, old, tag2, w1.marks, new.finished_reports@[n + 2], d.2.flatten());
    (w0.marks, w1.marks)
}

/// A blank report says nothing, and one that is blank but for what was freed says
/// nothing of anything else.
pub proof fn blank_reports_say_nothing(r: GcCycleReport)
    ensures
        r.is_blank_but_freed() <==> r.objects@.len() == 0 && r.candidates@.len() == 0
            && r.roots@.len() == 0 && r.allocated@.len() == 0 && r.rc_freed@.len() == 0,
        r.is_blank() <==> r.is_blank_but_freed() && r.cycle_collector_freed@.len() == 0,
{
    assert(r.objects@.len() == 0 ==> r.objects@ =~= Seq::empty());
    assert(r.candidates@.len() == 0 ==> r.candidates@ =~= Seq::empty());
    assert(r.roots@.len() == 0 ==> r.roots@ =~= Seq::empty());
    assert(r.allocated@.len() == 0 ==> r.allocated@ =~= Seq::empty());
    assert(r.rc_freed@.len() == 0 ==> r.rc_freed@ =~= Seq::empty());
    assert(r.cycle_collector_freed@.len() == 0 ==> r.cycle_collector_freed@ =~= Seq::empty());
}

/// Setting an entry sets that entry and no other.
pub proof fn set_entry_leaves_others(
    old: Map<Seq<char>, serde_json::Value>,
    new: Map<Seq<char>, serde_json::Value>,
    key: Seq<char>,
    v: graphs_project::JsonScalar,
    other: Seq<char>,
)
    requires
        graphs_project::set_entry(old, new, key, v),
    ensures
        new.dom().contains(key),
        graphs_project::json_scalar(new[key]) == v,
        other != key ==> new.dom().contains(other) == old.dom().contains(other),
        other != key ==> new[other] == old[other],
{
}

} // verus!
