//! Reports on the object graph around the cycle candidates of a collection.

use crate::plan::lxr::cycle_model;
use crate::util::address::{granule, ObjectReference};
use crate::util::rc::RcTables;
use crate::util::side_metadata::SideTable;
use crate::vm::heap::Heap;
use vstd::prelude::*;

verus! {

/// The address of an object, as it appears in a report.
pub type ObjectId = usize;

/// The JSON object of the `serde_json` crate.
#[verifier::external_type_specification]
#[verifier::external_body]
#[verifier::reject_recursive_types(K)]
#[verifier::reject_recursive_types(V)]
pub struct ExJsonMap<K, V>(serde_json::Map<K, V>);

/// The JSON value of the `serde_json` crate.
#[verifier::external_type_specification]
#[verifier::external_body]
pub struct ExJsonValue(serde_json::Value);

/// What a JSON value holds that is no list and no object.
pub enum JsonScalar {
    /// A number that is an unsigned integer.
    Unsigned(nat),
    /// A truth value.
    Bool(bool),
    /// A string.
    Text(Seq<char>),
    /// Anything else.
    Other,
}

/// The entries of a JSON object.
pub uninterp spec fn json_entries(
    m: serde_json::Map<String, serde_json::Value>,
) -> Map<Seq<char>, serde_json::Value>;

/// The entries of a JSON object that has none.
pub open spec fn no_entries() -> Map<Seq<char>, serde_json::Value> {
    Map::empty()
}

/// What a JSON value holds.
pub uninterp spec fn json_scalar(v: serde_json::Value) -> JsonScalar;

/// `serde_json::Map::new`: a JSON object without entries.
#[verifier::external_body]
fn json_map_new() -> (r: serde_json::Map<String, serde_json::Value>)
    ensures
        json_entries(r) == no_entries(),
{
    serde_json::Map::new()
}

/// `serde_json::Map::insert`: sets the entry for the key and leaves the others.
#[verifier::external_body]
fn json_map_insert(
    m: &mut serde_json::Map<String, serde_json::Value>,
    key: String,
    value: serde_json::Value,
)
    ensures
        json_entries(*final(m)) == json_entries(*old(m)).insert(key@, value),
{
    m.insert(key, value);
}

/// `serde_json::Value::from` on an unsigned integer: a number.
#[verifier::external_body]
fn json_from_usize(n: usize) -> (r: serde_json::Value)
    ensures
        json_scalar(r) == JsonScalar::Unsigned(n as nat),
{
    serde_json::Value::from(n)
}

/// `serde_json::Value::Bool`.
#[verifier::external_body]
fn json_from_bool(b: bool) -> (r: serde_json::Value)
    ensures
        json_scalar(r) == JsonScalar::Bool(b),
{
    serde_json::Value::Bool(b)
}

/// `serde_json::Value::String`.
#[verifier::external_body]
fn json_from_string(s: String) -> (r: serde_json::Value)
    ensures
        json_scalar(r) == JsonScalar::Text(s@),
{
    serde_json::Value::String(s)
}

/// One object of a report.
pub struct HeapObjectRecord {
    /// The address of the object.
    pub id: ObjectId,
    /// Its references.
    pub refcount: usize,
    /// What it refers to.
    pub sons: Vec<ObjectId>,
    /// Further entries.
    pub extra: serde_json::Map<String, serde_json::Value>,
}

impl HeapObjectRecord {
    /// A record without further entries.
    pub fn new(id: ObjectId, refcount: usize, sons: Vec<ObjectId>) -> (r: HeapObjectRecord)
        ensures
            r.id == id,
            r.refcount == refcount,
            r.sons == sons,
            json_entries(r.extra) == no_entries(),
    {
        HeapObjectRecord { id, refcount, sons, extra: json_map_new() }
    }

    /// A record with the further entries `extra`.
    pub fn with_extra(
        id: ObjectId,
        refcount: usize,
        sons: Vec<ObjectId>,
        extra: serde_json::Map<String, serde_json::Value>,
    ) -> (r: HeapObjectRecord)
        ensures
            r == (HeapObjectRecord { id, refcount, sons, extra }),
    {
        HeapObjectRecord { id, refcount, sons, extra }
    }

    /// Sets a further entry.
    pub fn add_extra_value(&mut self, key: String, value: serde_json::Value)
        ensures
            *final(self) == (HeapObjectRecord { extra: final(self).extra, ..*old(self) }),
            json_entries(final(self).extra) == json_entries(old(self).extra).insert(key@, value),
    {
        json_map_insert(&mut self.extra, key, value);
    }

    /// Sets a further entry to a number.
    pub fn add_extra_usize(&mut self, key: String, value: usize)
        ensures
            *final(self) == (HeapObjectRecord { extra: final(self).extra, ..*old(self) }),
            set_entry(
                json_entries(old(self).extra),
                json_entries(final(self).extra),
                key@,
                JsonScalar::Unsigned(value as nat),
            ),
    {
        json_map_insert(&mut self.extra, key, json_from_usize(value));
    }

    /// Sets a further entry to a truth value.
    pub fn add_extra_bool(&mut self, key: String, value: bool)
        ensures
            *final(self) == (HeapObjectRecord { extra: final(self).extra, ..*old(self) }),
            set_entry(
                json_entries(old(self).extra),
                json_entries(final(self).extra),
                key@,
                JsonScalar::Bool(value),
            ),
    {
        json_map_insert(&mut self.extra, key, json_from_bool(value));
    }

    /// Sets a further entry to a string.
    pub fn add_extra_string(&mut self, key: String, value: String)
        ensures
            *final(self) == (HeapObjectRecord { extra: final(self).extra, ..*old(self) }),
            set_entry(
                json_entries(old(self).extra),
                json_entries(final(self).extra),
                key@,
                JsonScalar::Text(value@),
            ),
    {
        json_map_insert(&mut self.extra, key, json_from_string(value));
    }
}

/// Whether `new` is `old` with a value that holds `v` under `key`.
pub open spec fn set_entry(
    old: Map<Seq<char>, serde_json::Value>,
    new: Map<Seq<char>, serde_json::Value>,
    key: Seq<char>,
    v: JsonScalar,
) -> bool {
    &&& new == old.insert(key, new[key])
    &&& json_scalar(new[key]) == v
}

/// What one collection found and freed.
pub struct GcCycleReport {
    /// The objects around the candidates.
    pub objects: Vec<HeapObjectRecord>,
    /// The candidates.
    pub candidates: Vec<ObjectId>,
    /// The roots.
    pub roots: Vec<ObjectId>,
    /// The objects that were allocated.
    pub allocated: Vec<ObjectId>,
    /// The objects that reference counting freed.
    pub rc_freed: Vec<ObjectId>,
    /// The objects that cycle collection freed.
    pub cycle_collector_freed: Vec<ObjectId>,
}

impl GcCycleReport {
    /// Whether nothing was reported.
    pub open spec fn is_blank(&self) -> bool {
        &&& self.objects@ == Seq::<HeapObjectRecord>::empty()
        &&& self.candidates@ == Seq::<ObjectId>::empty()
        &&& self.roots@ == Seq::<ObjectId>::empty()
        &&& self.allocated@ == Seq::<ObjectId>::empty()
        &&& self.rc_freed@ == Seq::<ObjectId>::empty()
        &&& self.cycle_collector_freed@ == Seq::<ObjectId>::empty()
    }

    /// Whether nothing was reported but objects that cycle collection freed.
    pub open spec fn is_blank_but_freed(&self) -> bool {
        &&& self.objects@ == Seq::<HeapObjectRecord>::empty()
        &&& self.candidates@ == Seq::<ObjectId>::empty()
        &&& self.roots@ == Seq::<ObjectId>::empty()
        &&& self.allocated@ == Seq::<ObjectId>::empty()
        &&& self.rc_freed@ == Seq::<ObjectId>::empty()
    }

    /// A report in which nothing is reported.
    pub fn new() -> (r: GcCycleReport)
        ensures
            r.is_blank(),
    {
        GcCycleReport {
            objects: Vec::new(),
            candidates: Vec::new(),
            roots: Vec::new(),
            allocated: Vec::new(),
            rc_freed: Vec::new(),
            cycle_collector_freed: Vec::new(),
        }
    }

    /// Reports an object.
    pub fn add_object(&mut self, id: ObjectId, refcount: usize, sons: Vec<ObjectId>)
        ensures
            *final(self) == (GcCycleReport { objects: final(self).objects, ..*old(self) }),
            final(self).objects@ == old(self).objects@.push(final(self).objects@.last()),
            final(self).objects@.last().id == id,
            final(self).objects@.last().refcount == refcount,
            final(self).objects@.last().sons == sons,
            json_entries(final(self).objects@.last().extra) == no_entries(),
    {
        self.objects.push(HeapObjectRecord::new(id, refcount, sons));
    }

    /// Reports an object by its record.
    pub fn add_object_record(&mut self, object: HeapObjectRecord)
        ensures
            *final(self) == (GcCycleReport { objects: final(self).objects, ..*old(self) }),
            final(self).objects@ == old(self).objects@.push(object),
    {
        self.objects.push(object);
    }

    /// Reports a candidate.
    pub fn add_candidate(&mut self, id: ObjectId)
        ensures
            *final(self) == (GcCycleReport { candidates: final(self).candidates, ..*old(self) }),
            final(self).candidates@ == old(self).candidates@.push(id),
    {
        self.candidates.push(id);
    }

    /// Reports a root.
    pub fn add_root(&mut self, id: ObjectId)
        ensures
            *final(self) == (GcCycleReport { roots: final(self).roots, ..*old(self) }),
            final(self).roots@ == old(self).roots@.push(id),
    {
        self.roots.push(id);
    }

    /// Reports an allocated object.
    pub fn add_allocated(&mut self, id: ObjectId)
        ensures
            *final(self) == (GcCycleReport { allocated: final(self).allocated, ..*old(self) }),
            final(self).allocated@ == old(self).allocated@.push(id),
    {
        self.allocated.push(id);
    }

    /// Reports an object that reference counting freed.
    pub fn add_rc_freed(&mut self, id: ObjectId)
        ensures
            *final(self) == (GcCycleReport { rc_freed: final(self).rc_freed, ..*old(self) }),
            final(self).rc_freed@ == old(self).rc_freed@.push(id),
    {
        self.rc_freed.push(id);
    }

    /// Reports an object that cycle collection freed.
    pub fn add_cycle_collector_freed(&mut self, id: ObjectId)
        ensures
            *final(self) == (GcCycleReport {
                cycle_collector_freed: final(self).cycle_collector_freed,
                ..*old(self)
            }),
            final(self).cycle_collector_freed@ == old(self).cycle_collector_freed@.push(id),
    {
        self.cycle_collector_freed.push(id);
    }

    /// Empties the report.
    pub fn clear(&mut self)
        ensures
            final(self).is_blank(),
    {
        self.objects.clear();
        self.candidates.clear();
        self.roots.clear();
        self.allocated.clear();
        self.rc_freed.clear();
        self.cycle_collector_freed.clear();
    }
}

/// What one object of a report says.
pub struct RecordView {
    /// The address of the object.
    pub id: ObjectId,
    /// Its references.
    pub refcount: usize,
    /// What it refers to.
    pub sons: Seq<ObjectId>,
    /// Further entries.
    pub extra: Map<Seq<char>, serde_json::Value>,
}

impl View for HeapObjectRecord {
    type V = RecordView;

    open spec fn view(&self) -> RecordView {
        RecordView {
            id: self.id,
            refcount: self.refcount,
            sons: self.sons@,
            extra: json_entries(self.extra),
        }
    }
}

/// What the objects of a report say.
pub open spec fn record_views(records: Seq<HeapObjectRecord>) -> Seq<RecordView> {
    Seq::new(records.len(), |i: int| records[i]@)
}

/// The addresses of the objects.
pub open spec fn addresses(xs: Seq<ObjectReference>) -> Seq<ObjectId> {
    Seq::new(xs.len(), |i: int| xs[i].addr)
}

/// A walk over the object graph in progress.
#[verifier::ext_equal]
pub struct GraphWalk {
    /// Which granules were reported.
    pub marks: Map<usize, u8>,
    /// The objects still to be visited.
    pub stack: Seq<ObjectReference>,
    /// The objects that were reported.
    pub objects: Seq<RecordView>,
}

/// Whether every object of `stack` is in the heap.
pub open spec fn in_heap(heap: Heap, stack: Seq<ObjectReference>) -> bool {
    forall|i: int| 0 <= i < stack.len() ==> heap.contains(#[trigger] stack[i])
}

/// What is reported of `o`.
pub open spec fn report_of(heap: Heap, rc: Map<usize, u8>, o: ObjectReference) -> RecordView {
    RecordView {
        id: o.addr,
        refcount: rc[o.granule()].wrapping_sub(1) as usize,
        sons: addresses(cycle_model::refs(heap, heap.slots(o))),
        extra: no_entries(),
    }
}

/// One step of the report: an object that was not reported yet is reported, and
/// what it refers to is visited next.
pub open spec fn report_step(heap: Heap, rc: Map<usize, u8>, w: GraphWalk) -> GraphWalk {
    let o = w.stack.last();
    let rest = w.stack.drop_last();
    if w.marks[o.granule()] == 0 {
        GraphWalk {
            marks: w.marks.insert(o.granule(), 1),
            stack: rest + cycle_model::refs(heap, heap.slots(o)),
            objects: w.objects.push(report_of(heap, rc, o)),
        }
    } else {
        GraphWalk { stack: rest, ..w }
    }
}

/// The granules with mark `v`.
pub open spec fn with_mark(marks: Map<usize, u8>, v: u8) -> spec_fn(usize) -> bool {
    |g: usize| marks[g] == v
}

/// The objects of a stack and those that one of them refers to are in the heap.
proof fn stack_stays_in_heap(heap: Heap, stack: Seq<ObjectReference>)
    requires
        heap.wf(),
        in_heap(heap, stack),
        stack.len() > 0,
    ensures
        heap.contains(stack.last()),
        in_heap(heap, stack.drop_last()),
        in_heap(heap, cycle_model::refs(heap, heap.slots(stack.last()))),
        in_heap(heap, stack.drop_last() + cycle_model::refs(heap, heap.slots(stack.last()))),
{
    let c = cycle_model::Snapshot { heap, unlog: Map::empty(), satb: Map::empty(), tag: 1 };
    assert(c.holds(stack));
    cycle_model::pop_in_heap(c, stack);
    cycle_model::children_in_heap(c, stack.last());
    cycle_model::concat_in_heap(
        c,
        stack.drop_last(),
        cycle_model::refs(heap, heap.slots(stack.last())),
    );
}

/// A step of the report stays in the heap, and either reports an object or
/// shortens the stack.
pub proof fn report_step_progress(heap: Heap, rc: Map<usize, u8>, w: GraphWalk)
    requires
        heap.wf(),
        in_heap(heap, w.stack),
        w.stack.len() > 0,
    ensures
        in_heap(heap, report_step(heap, rc, w).stack),
        w.marks[w.stack.last().granule()] == 0 ==> cycle_model::count_all(
            heap,
            with_mark(report_step(heap, rc, w).marks, 0),
        ) < cycle_model::count_all(heap, with_mark(w.marks, 0)),
        w.marks[w.stack.last().granule()] != 0 ==> report_step(heap, rc, w).marks == w.marks
            && report_step(heap, rc, w).stack.len() < w.stack.len(),
{
    stack_stays_in_heap(heap, w.stack);
    let o = w.stack.last();
    let v = report_step(heap, rc, w);
    if w.marks[o.granule()] == 0 {
        assert forall|g: usize| #[trigger] with_mark(v.marks, 0)(g) implies with_mark(
            w.marks,
            0,
        )(g) by {}
        cycle_model::count_objects_drop(
            heap,
            with_mark(w.marks, 0),
            with_mark(v.marks, 0),
            heap.objects@.len(),
            heap.place(o),
        );
    }
}

/// The report, to its end.
pub open spec fn report_all(heap: Heap, rc: Map<usize, u8>, w: GraphWalk) -> GraphWalk
    decreases cycle_model::count_all(heap, with_mark(w.marks, 0)), w.stack.len(),
    when heap.wf() && in_heap(heap, w.stack)
    via report_all_decreases
{
    if w.stack.len() == 0 {
        w
    } else {
        report_all(heap, rc, report_step(heap, rc, w))
    }
}

#[via_fn]
proof fn report_all_decreases(heap: Heap, rc: Map<usize, u8>, w: GraphWalk) {
    if w.stack.len() > 0 {
        report_step_progress(heap, rc, w);
    }
}

/// One step of the sweep: a marked object is unmarked, and what it refers to is
/// visited next.
pub open spec fn sweep_step(heap: Heap, w: GraphWalk) -> GraphWalk {
    let o = w.stack.last();
    let rest = w.stack.drop_last();
    if w.marks[o.granule()] == 1 {
        GraphWalk {
            marks: w.marks.insert(o.granule(), 0),
            stack: rest + cycle_model::refs(heap, heap.slots(o)),
            ..w
        }
    } else {
        GraphWalk { stack: rest, ..w }
    }
}

/// A step of the sweep stays in the heap, and either unmarks an object or
/// shortens the stack.
pub proof fn sweep_step_progress(heap: Heap, w: GraphWalk)
    requires
        heap.wf(),
        in_heap(heap, w.stack),
        w.stack.len() > 0,
    ensures
        in_heap(heap, sweep_step(heap, w).stack),
        w.marks[w.stack.last().granule()] == 1 ==> cycle_model::count_all(
            heap,
            with_mark(sweep_step(heap, w).marks, 1),
        ) < cycle_model::count_all(heap, with_mark(w.marks, 1)),
        w.marks[w.stack.last().granule()] != 1 ==> sweep_step(heap, w).marks == w.marks
            && sweep_step(heap, w).stack.len() < w.stack.len(),
{
    stack_stays_in_heap(heap, w.stack);
    let o = w.stack.last();
    let v = sweep_step(heap, w);
    if w.marks[o.granule()] == 1 {
        assert forall|g: usize| #[trigger] with_mark(v.marks, 1)(g) implies with_mark(
            w.marks,
            1,
        )(g) by {}
        cycle_model::count_objects_drop(
            heap,
            with_mark(w.marks, 1),
            with_mark(v.marks, 1),
            heap.objects@.len(),
            heap.place(o),
        );
    }
}

/// The sweep, to its end.
pub open spec fn sweep_all(heap: Heap, w: GraphWalk) -> GraphWalk
    decreases cycle_model::count_all(heap, with_mark(w.marks, 1)), w.stack.len(),
    when heap.wf() && in_heap(heap, w.stack)
    via sweep_all_decreases
{
    if w.stack.len() == 0 {
        w
    } else {
        sweep_all(heap, sweep_step(heap, w))
    }
}

#[via_fn]
proof fn sweep_all_decreases(heap: Heap, w: GraphWalk) {
    if w.stack.len() > 0 {
        sweep_step_progress(heap, w);
    }
}

impl GcCycleReport {
    /// Reports the candidate `cand` and every object that can be reached from
    /// it and was not reported yet.
    pub fn mark_candidate_sub_graph(
        &mut self,
        heap: &Heap,
        t: &RcTables,
        marks: &mut SideTable<u8>,
        cand: ObjectReference,
    )
        requires
            heap.wf(),
            heap.contains(cand),
        ensures
            *final(self) == (GcCycleReport {
                objects: final(self).objects,
                candidates: final(self).candidates,
                ..*old(self)
            }),
            final(self).candidates@ == old(self).candidates@.push(cand.addr),
            ({
                let w = report_all(
                    *heap,
                    t.rc@,
                    GraphWalk {
                        marks: old(marks)@,
                        stack: seq![cand],
                        objects: record_views(old(self).objects@),
                    },
                );
                &&& final(marks)@ == w.marks
                &&& record_views(final(self).objects@) == w.objects
            }),
    {
        let ghost mut w = GraphWalk {
            marks: marks@,
            stack: seq![cand],
            objects: record_views(self.objects@),
        };
        let ghost w0 = w;
        self.add_candidate(cand.addr);
        let mut dfs_stack: Vec<ObjectReference> = Vec::new();
        dfs_stack.push(cand);
        proof {
            assert(dfs_stack@ =~= w.stack);
        }
        while dfs_stack.len() > 0
            invariant
                heap.wf(),
                *self == (GcCycleReport {
                    objects: self.objects,
                    candidates: self.candidates,
                    ..*old(self)
                }),
                self.candidates@ == old(self).candidates@.push(cand.addr),
                in_heap(*heap, w.stack),
                w.marks == marks@,
                w.stack == dfs_stack@,
                w.objects == record_views(self.objects@),
                report_all(*heap, t.rc@, w) == report_all(*heap, t.rc@, w0),
            decreases cycle_model::count_all(*heap, with_mark(w.marks, 0)), w.stack.len(),
        {
            proof {
                report_step_progress(*heap, t.rc@, w);
                stack_stays_in_heap(*heap, w.stack);
            }
            if let Some(curr) = dfs_stack.pop() {
                let g: usize = granule(curr.addr);
                if marks.load(g) == 0 {
                    marks.store(g, 1);
                    let sons = push_sons(heap, curr, &mut dfs_stack);
                    let refcount: usize = t.rc.load(g).wrapping_sub(1) as usize;
                    self.add_object(curr.addr, refcount, sons);
                    proof {
                        let v = report_step(*heap, t.rc@, w);
                        assert(record_views(self.objects@) =~= v.objects);
                    }
                }
                proof {
                    let v = report_step(*heap, t.rc@, w);
                    assert(dfs_stack@ =~= v.stack);
                    w = v;
                }
            }
        }
    }

    /// Unmarks every marked object that can be reached from `cand` by way of
    /// marked objects.
    pub fn sweep_candidate_sub_graph(
        &self,
        heap: &Heap,
        marks: &mut SideTable<u8>,
        cand: ObjectReference,
    )
        requires
            heap.wf(),
            heap.contains(cand),
        ensures
            final(marks)@ == sweep_all(
                *heap,
                GraphWalk { marks: old(marks)@, stack: seq![cand], objects: Seq::empty() },
            ).marks,
    {
        let ghost mut w = GraphWalk { marks: marks@, stack: seq![cand], objects: Seq::empty() };
        let ghost w0 = w;
        let mut dfs_stack: Vec<ObjectReference> = Vec::new();
        dfs_stack.push(cand);
        proof {
            assert(dfs_stack@ =~= w.stack);
        }
        while dfs_stack.len() > 0
            invariant
                heap.wf(),
                in_heap(*heap, w.stack),
                w.marks == marks@,
                w.stack == dfs_stack@,
                sweep_all(*heap, w) == sweep_all(*heap, w0),
            decreases cycle_model::count_all(*heap, with_mark(w.marks, 1)), w.stack.len(),
        {
            proof {
                sweep_step_progress(*heap, w);
                stack_stays_in_heap(*heap, w.stack);
            }
            if let Some(curr) = dfs_stack.pop() {
                let g: usize = granule(curr.addr);
                if marks.load(g) == 1 {
                    marks.store(g, 0);
                    push_sons(heap, curr, &mut dfs_stack);
                }
                proof {
                    let v = sweep_step(*heap, w);
                    assert(dfs_stack@ =~= v.stack);
                    w = v;
                }
            }
        }
    }
}

/// Puts what `curr` refers to on the stack, and returns the addresses.
fn push_sons(
    heap: &Heap,
    curr: ObjectReference,
    dfs_stack: &mut Vec<ObjectReference>,
) -> (r: Vec<ObjectId>)
    requires
        heap.wf(),
        heap.contains(curr),
    ensures
        r@ == addresses(cycle_model::refs(*heap, heap.slots(curr))),
        final(dfs_stack)@ == old(dfs_stack)@ + cycle_model::refs(*heap, heap.slots(curr)),
{
    let mut sons: Vec<ObjectId> = Vec::new();
    let slots = &heap.get(curr).slots;
    let mut i: usize = 0;
    while i < slots.len()
        invariant
            heap.wf(),
            heap.contains(curr),
            slots@ == heap.slots(curr),
            i <= slots@.len(),
            sons@ == addresses(cycle_model::refs(*heap, slots@.take(i as int))),
            dfs_stack@ == old(dfs_stack)@ + cycle_model::refs(*heap, slots@.take(i as int)),
        decreases slots@.len() - i,
    {
        proof {
            assert(slots@[i as int] == heap.objects@[heap.place(curr)].slots@[i as int]);
            assert(slots@.take(i + 1).drop_last() =~= slots@.take(i as int));
        }
        let slot: usize = slots[i];
        if let Some(x) = heap.load(slot) {
            sons.push(x.addr);
            dfs_stack.push(x);
        }
        i = i + 1;
    }
    assert(slots@.take(slots@.len() as int) =~= slots@);
    sons
}

} // verus!
