//! What a cycle collection reclaims, and what it leaves.

use crate::plan::lxr::buffer;
use crate::plan::lxr::cycle_complete;
use crate::plan::lxr::cycle_grey;
use crate::plan::lxr::cycle_laws;
use crate::plan::lxr::cycle_model;
use crate::plan::lxr::cycle_model::{CycleState, Snapshot, Walk};
use crate::plan::lxr::cycle_phases;
use crate::plan::lxr::cycle_phases::BufferWalk;
use crate::plan::lxr::cycle_soundness;
use crate::plan::lxr::cycle_stats::CycleCollectorStats;
use crate::plan::lxr::gc_work;
use crate::plan::lxr::global::Lxr;
use crate::util::address::ObjectReference;
use crate::util::rc;
use crate::util::rc::{Counts, BLACK_IN_STACK, GREY, WHITE};
use crate::vm::heap::Heap;
use vstd::prelude::*;

verus! {

/// The granules of black objects that are alive.
pub open spec fn counted(s: CycleState) -> spec_fn(usize) -> bool {
    |g: usize| s.color[g] <= 1 && s.counts.rc[g] != 0
}

/// How many references to granule `g` black objects hold that are alive.
pub open spec fn live_refs(heap: Heap, s: CycleState, g: usize) -> nat {
    cycle_laws::refs_from_some(heap, counted(s), g, heap.objects@.len())
}

/// Whether `o` was reclaimed or is white.
pub open spec fn gone(s: CycleState, o: ObjectReference) -> bool {
    s.counts.rc[o.granule()] == 0 || !s.is_black(o)
}

/// Whether no object begins where a line begins that another object covers.
pub open spec fn apart(heap: Heap) -> bool {
    forall|o: ObjectReference, p: ObjectReference|
        #![trigger heap.contains(o), heap.contains(p)]
        heap.contains(o) && heap.contains(p) && heap.info(o).in_immix_space && heap.info(o).size
            > 256 ==> !(p.granule() % 16 == 0 && rc::straddles(
            o.addr,
            heap.info(o).size,
            (p.granule() / 16) as usize,
        ))
}

/// Whether the entries of granule `g` agree: only a saturated count has an
/// excess.
pub open spec fn entry_wf(c: Counts, g: usize) -> bool {
    c.excess[g] != 0 ==> c.rc[g] == 255
}

/// What the collect phase keeps of an object. It is black or white. While it is
/// alive its count is right. What is gone has no reference from outside. What
/// was reclaimed is listed.
pub open spec fn object_kept(
    heap: Heap,
    s: CycleState,
    base: spec_fn(usize) -> nat,
    o: ObjectReference,
) -> bool {
    let g = o.granule();
    &&& s.color[g] <= 1 || s.color[g] == 3
    &&& entry_wf(s.counts, g)
    &&& s.counts.rc[g] != 0 ==> s.counts.count(g) == base(g) + live_refs(heap, s, g)
    &&& base(g) >= 1
    &&& gone(s, o) ==> base(g) == 1
    &&& s.counts.rc[g] == 0 ==> s.color[g] <= 1
    &&& s.counts.rc[g] == 0 <==> s.freed.contains(o.addr)
}

/// Whether everything that refers to what is gone is gone.
pub open spec fn referrers_gone(heap: Heap, s: CycleState) -> bool {
    forall|p: ObjectReference, o: ObjectReference|
        #![trigger cycle_grey::children(heap, p).contains(o)]
        heap.contains(p) && heap.contains(o) && cycle_grey::children(heap, p).contains(o) && gone(
            s,
            o,
        ) ==> gone(s, p)
}

/// What the collect phase keeps.
pub open spec fn kept(heap: Heap, s: CycleState, base: spec_fn(usize) -> nat) -> bool {
    &&& forall|o: ObjectReference| #[trigger] heap.contains(o) ==> object_kept(heap, s, base, o)
    &&& referrers_gone(heap, s)
    &&& s.freed.no_duplicates()
}

/// An object that is alive and has no count beyond the bias is referred to only
/// by what is gone.
proof fn only_gone_refer_to(
    heap: Heap,
    s: CycleState,
    base: spec_fn(usize) -> nat,
    o: ObjectReference,
    p: ObjectReference,
)
    requires
        heap.wf(),
        kept(heap, s, base),
        heap.contains(o),
        s.counts.rc[o.granule()] != 0,
        s.counts.count(o.granule()) == 1,
        heap.contains(p),
        cycle_grey::children(heap, p).contains(o),
    ensures
        gone(s, p),
        base(o.granule()) == 1,
{
    assert(object_kept(heap, s, base, o));
    assert(object_kept(heap, s, base, p));
    if !gone(s, p) {
        let k = heap.place(p);
        assert(heap.objects@[k].object == p);
        assert(counted(s)(p.granule()));
        cycle_laws::no_refs_from_any(heap, counted(s), o.granule(), heap.objects@.len(), k);
        cycle_soundness::contained_occurs(cycle_grey::children(heap, p), o);
    }
}

/// The references that one object holds are among those of all.
pub proof fn refs_from_one(heap: Heap, p: spec_fn(usize) -> bool, g: usize, n: nat, k: int)
    requires
        n <= heap.objects@.len(),
        0 <= k < n,
        p(heap.objects@[k].object.granule()),
    ensures
        cycle_laws::refs_from(heap, k, g) <= cycle_laws::refs_from_some(heap, p, g, n),
    decreases n,
{
    if k < n - 1 {
        refs_from_one(heap, p, g, (n - 1) as nat, k);
    }
}

/// A reference that occurs is held.
pub proof fn occurs_is_contained(heap: Heap, xs: Seq<ObjectReference>, x: ObjectReference)
    requires
        heap.wf(),
        heap.contains(x),
        forall|i: int| 0 <= i < xs.len() ==> heap.contains(#[trigger] xs[i]),
        cycle_laws::occurrences(xs, x.granule()) > 0,
    ensures
        xs.contains(x),
    decreases xs.len(),
{
    let p = xs.drop_last();
    if xs.last().granule() == x.granule() {
        assert(heap.contains(xs[xs.len() - 1]));
        assert(xs[xs.len() - 1] == x);
    } else {
        assert forall|i: int| 0 <= i < p.len() implies heap.contains(#[trigger] p[i]) by {
            assert(p[i] == xs[i]);
        }
        occurs_is_contained(heap, p, x);
        let i = choose|i: int| 0 <= i < p.len() && p[i] == x;
        assert(xs[i] == x);
    }
}

/// A decrement takes one from a count above zero, and touches no other.
proof fn dec_one(c: Counts, g: usize)
    requires
        entry_wf(c, g),
        c.count(g) > 0,
    ensures
        c.dec(g).count(g) == c.count(g) - 1,
        entry_wf(c.dec(g), g),
        forall|h: usize|
            #![trigger c.dec(g).rc[h]]
            h != g ==> c.dec(g).rc[h] == c.rc[h] && c.dec(g).excess[h] == c.excess[h],
{
}

/// What dropping references does, where every object keeps at least the bias.
pub open spec fn refs_dropped(
    heap: Heap,
    u: Walk,
    v: Walk,
    xs: Seq<ObjectReference>,
) -> bool {
    &&& v.s.color == u.s.color
    &&& v.s.freed == u.s.freed
    &&& v.stack.len() >= u.stack.len()
    &&& forall|i: int| 0 <= i < u.stack.len() ==> #[trigger] v.stack[i] == u.stack[i]
    &&& forall|q: ObjectReference| #[trigger]
        heap.contains(q) ==> entry_wf(v.s.counts, q.granule()) && v.s.counts.count(q.granule())
            + cycle_laws::occurrences(xs, q.granule()) == u.s.counts.count(q.granule())
    &&& forall|i: int|
        #![trigger v.stack[i]]
        u.stack.len() <= i < v.stack.len() ==> heap.contains(v.stack[i]) && v.s.counts.count(
            v.stack[i].granule(),
        ) == 1 && u.s.counts.count(v.stack[i].granule()) >= 2
    &&& forall|i: int, j: int|
        #![trigger v.stack[i], v.stack[j]]
        u.stack.len() <= i < j < v.stack.len() ==> v.stack[i].granule() != v.stack[j].granule()
}

/// Dropping references that are counted takes each from its count, and visits
/// next what has no count beyond the bias left.
proof fn drop_refs_drops(heap: Heap, u: Walk, xs: Seq<ObjectReference>, tag: u8)
    requires
        heap.wf(),
        forall|i: int| 0 <= i < xs.len() ==> heap.contains(#[trigger] xs[i]),
        forall|q: ObjectReference| #[trigger]
            heap.contains(q) ==> entry_wf(u.s.counts, q.granule()) && (cycle_laws::occurrences(
                xs,
                q.granule(),
            ) > 0 ==> u.s.counts.count(q.granule()) > cycle_laws::occurrences(xs, q.granule())),
    ensures
        refs_dropped(heap, u, cycle_model::drop_refs(u, xs, tag), xs),
    decreases xs.len(),
{
    if xs.len() > 0 {
        let p = xs.drop_last();
        let x = xs.last();
        let gx = x.granule();
        assert(heap.contains(xs[xs.len() - 1]));
        assert forall|i: int| 0 <= i < p.len() implies heap.contains(#[trigger] p[i]) by {
            assert(p[i] == xs[i]);
        }
        assert forall|q: ObjectReference| #[trigger] heap.contains(q) implies entry_wf(
            u.s.counts,
            q.granule(),
        ) && (cycle_laws::occurrences(p, q.granule()) > 0 ==> u.s.counts.count(q.granule())
            > cycle_laws::occurrences(p, q.granule())) by {
            assert(cycle_laws::occurrences(xs, q.granule()) >= cycle_laws::occurrences(
                p,
                q.granule(),
            ));
        }
        drop_refs_drops(heap, u, p, tag);
        let v = cycle_model::drop_refs(u, p, tag);
        let f = cycle_model::drop_refs(u, xs, tag);
        assert(cycle_laws::occurrences(xs, gx) == cycle_laws::occurrences(p, gx) + 1);
        assert(v.s.counts.count(gx) >= 2);
        dec_one(v.s.counts, gx);
        assert(f.s.counts == v.s.counts.dec(gx));
        assert forall|q: ObjectReference| #[trigger] heap.contains(q) implies entry_wf(
            f.s.counts,
            q.granule(),
        ) && f.s.counts.count(q.granule()) + cycle_laws::occurrences(xs, q.granule())
            == u.s.counts.count(q.granule()) by {
            assert(entry_wf(v.s.counts, q.granule()));
            if q.granule() != gx {
                assert(f.s.counts.rc[q.granule()] == v.s.counts.rc[q.granule()]);
            }
        }
        assert forall|i: int|
            #![trigger f.stack[i]]
            u.stack.len() <= i < f.stack.len() implies heap.contains(f.stack[i])
            && f.s.counts.count(f.stack[i].granule()) == 1 && u.s.counts.count(
            f.stack[i].granule(),
        ) >= 2 by {
            if i < v.stack.len() {
                assert(f.stack[i] == v.stack[i]);
                assert(v.s.counts.count(v.stack[i].granule()) == 1);
                assert(f.s.counts.rc[v.stack[i].granule()] == v.s.counts.rc[v.stack[i].granule()]);
            }
        }
        assert forall|i: int, j: int|
            #![trigger f.stack[i], f.stack[j]]
            u.stack.len() <= i < j < f.stack.len() implies f.stack[i].granule()
            != f.stack[j].granule() by {
            assert(f.stack[i] == v.stack[i]);
            assert(v.s.counts.count(v.stack[i].granule()) == 1);
            if j < v.stack.len() {
                assert(f.stack[j] == v.stack[j]);
            }
        }
    }
}

/// Reclaiming an object without a count beyond the bias takes its count away,
/// and touches no other object.
proof fn reclaim_takes_one(heap: Heap, s: CycleState, o: ObjectReference)
    requires
        heap.wf(),
        apart(heap),
        heap.contains(o),
        s.counts.rc[o.granule()] == 1,
    ensures
        ({
            let f = cycle_model::reclaim(heap, s, o);
            &&& f.counts.rc[o.granule()] == 0
            &&& f.counts.excess == s.counts.excess
            &&& f.color == s.color.insert(o.granule(), 0)
            &&& f.freed == s.freed.push(o.addr)
            &&& forall|q: ObjectReference| #[trigger]
                heap.contains(q) && q != o ==> f.counts.rc[q.granule()] == s.counts.rc[q.granule()]
        }),
{
    let f = cycle_model::reclaim(heap, s, o);
    assert(heap.contains(o));
    assert forall|q: ObjectReference| #[trigger]
        heap.contains(q) && q != o implies f.counts.rc[q.granule()]
        == s.counts.rc[q.granule()] by {
        assert(q.granule() != o.granule());
    }
}

/// The objects that `collect_blacks` still has to reclaim: each is alive, black,
/// without a count beyond the bias, and there once.
pub open spec fn doomed(heap: Heap, s: CycleState, stack: Seq<ObjectReference>) -> bool {
    &&& forall|i: int|
        #![trigger stack[i]]
        0 <= i < stack.len() ==> heap.contains(stack[i]) && s.counts.count(stack[i].granule()) == 1
            && s.is_black(stack[i])
    &&& forall|i: int, j: int|
        #![trigger stack[i], stack[j]]
        0 <= i < j < stack.len() ==> stack[i].granule() != stack[j].granule()
}

/// What becomes of the references when a black object that is alive dies.
proof fn live_refs_without(
    heap: Heap,
    s: CycleState,
    f: CycleState,
    o: ObjectReference,
    g: usize,
)
    requires
        heap.wf(),
        heap.contains(o),
        counted(s)(o.granule()),
        !counted(f)(o.granule()),
        forall|q: ObjectReference| #[trigger]
            heap.contains(q) && q != o ==> counted(f)(q.granule()) == counted(s)(q.granule()),
    ensures
        live_refs(heap, s, g) == live_refs(heap, f, g) + cycle_laws::occurrences(
            cycle_grey::children(heap, o),
            g,
        ),
{
    let k = heap.place(o);
    assert(heap.objects@[k].object == o);
    assert forall|i: int|
        0 <= i < heap.objects@.len() && i != k implies counted(f)(
        #[trigger] heap.objects@[i].object.granule(),
    ) == counted(s)(heap.objects@[i].object.granule()) by {
        let q = heap.objects@[i].object;
        assert(heap.contains(q));
        assert(heap.index@[q.granule()] == i);
        assert(q != o);
    }
    cycle_laws::refs_from_some_add(heap, counted(f), counted(s), g, heap.objects@.len(), k);
}

/// References from the same objects are the same references.
proof fn live_refs_same(heap: Heap, s: CycleState, f: CycleState, g: usize)
    requires
        heap.wf(),
        forall|q: ObjectReference| #[trigger]
            heap.contains(q) ==> counted(f)(q.granule()) == counted(s)(q.granule()),
    ensures
        live_refs(heap, s, g) == live_refs(heap, f, g),
{
    assert forall|i: int| 0 <= i < heap.objects@.len() implies counted(s)(
        #[trigger] heap.objects@[i].object.granule(),
    ) == counted(f)(heap.objects@[i].object.granule()) by {
        let q = heap.objects@[i].object;
        assert(heap.contains(q));
    }
    cycle_laws::refs_from_some_equal(heap, counted(s), counted(f), g, heap.objects@.len());
}

/// Every reference that an object without a count beyond the bias holds is
/// counted, and not to itself.
proof fn doomed_refs_are_counted(
    c: Snapshot,
    s: CycleState,
    base: spec_fn(usize) -> nat,
    o: ObjectReference,
    q: ObjectReference,
)
    requires
        c.wf(),
        kept(c.heap, s, base),
        c.heap.contains(o),
        s.counts.count(o.granule()) == 1,
        s.is_black(o),
        c.heap.contains(q),
        cycle_laws::occurrences(cycle_grey::children(c.heap, o), q.granule()) > 0,
    ensures
        s.counts.count(q.granule()) > cycle_laws::occurrences(
            cycle_grey::children(c.heap, o),
            q.granule(),
        ),
        !gone(s, q),
        q != o,
{
    let heap = c.heap;
    let xs = cycle_grey::children(heap, o);
    cycle_model::children_in_heap(c, o);
    assert forall|i: int| 0 <= i < xs.len() implies heap.contains(#[trigger] xs[i]) by {}
    occurs_is_contained(heap, xs, q);
    assert(object_kept(heap, s, base, o));
    assert(object_kept(heap, s, base, q));
    assert(!gone(s, o));
    assert(!gone(s, q));
    let k = heap.place(o);
    assert(heap.objects@[k].object == o);
    refs_from_one(heap, counted(s), q.granule(), heap.objects@.len(), k);
}

/// A step of `collect_blacks` keeps what has to be kept.
pub proof fn collect_blacks_step_keeps(c: Snapshot, w: Walk, base: spec_fn(usize) -> nat)
    requires
        c.wf(),
        apart(c.heap),
        kept(c.heap, w.s, base),
        doomed(c.heap, w.s, w.stack),
        w.stack.len() > 0,
    ensures
        kept(c.heap, cycle_model::collect_blacks_step(c, w).s, base),
        doomed(
            c.heap,
            cycle_model::collect_blacks_step(c, w).s,
            cycle_model::collect_blacks_step(c, w).stack,
        ),
        forall|q: ObjectReference| #[trigger]
            c.heap.contains(q) && w.s.color_of(q) == WHITE
                ==> cycle_model::collect_blacks_step(c, w).s.color_of(q) == WHITE,
        forall|q: ObjectReference| #[trigger]
            c.heap.contains(q) && gone(w.s, q) ==> gone(
                cycle_model::collect_blacks_step(c, w).s,
                q,
            ),
{
    let heap = c.heap;
    let o = w.stack.last();
    let go = o.granule();
    let xs = cycle_grey::children(heap, o);
    let u = Walk {
        stack: w.stack.drop_last(),
        visited: w.visited.wrapping_add(1),
        ..w
    };
    let v = cycle_model::drop_refs(u, xs, c.tag);
    let f = cycle_model::collect_blacks_step(c, w);
    assert(w.stack[w.stack.len() - 1] == o);
    assert(object_kept(heap, w.s, base, o));
    cycle_model::children_in_heap(c, o);
    assert forall|i: int| 0 <= i < xs.len() implies heap.contains(#[trigger] xs[i]) by {}
    assert forall|q: ObjectReference| #[trigger] heap.contains(q) implies entry_wf(
        u.s.counts,
        q.granule(),
    ) && (cycle_laws::occurrences(xs, q.granule()) > 0 ==> u.s.counts.count(q.granule())
        > cycle_laws::occurrences(xs, q.granule())) by {
        assert(object_kept(heap, w.s, base, q));
        if cycle_laws::occurrences(xs, q.granule()) > 0 {
            doomed_refs_are_counted(c, w.s, base, o, q);
        }
    }
    drop_refs_drops(heap, u, xs, c.tag);
    // The object itself loses no reference.
    assert(cycle_laws::occurrences(xs, go) == 0) by {
        if cycle_laws::occurrences(xs, go) > 0 {
            doomed_refs_are_counted(c, w.s, base, o, o);
        }
    }
    assert(v.s.counts.count(go) == 1);
    assert(v.s.counts.rc[go] == 1);
    reclaim_takes_one(heap, v.s, o);
    assert forall|q: ObjectReference| #[trigger] heap.contains(q) && q != o implies {
        &&& f.s.counts.rc[q.granule()] == v.s.counts.rc[q.granule()]
        &&& f.s.counts.count(q.granule()) + cycle_laws::occurrences(xs, q.granule())
            == w.s.counts.count(q.granule())
        &&& f.s.color[q.granule()] == w.s.color[q.granule()]
        &&& (f.s.counts.rc[q.granule()] == 0 <==> w.s.counts.rc[q.granule()] == 0)
        &&& entry_wf(f.s.counts, q.granule())
    } by {
        assert(q.granule() != go);
        assert(object_kept(heap, w.s, base, q));
        assert(entry_wf(v.s.counts, q.granule()));
        if cycle_laws::occurrences(xs, q.granule()) > 0 {
            doomed_refs_are_counted(c, w.s, base, o, q);
        }
    }
    assert forall|q: ObjectReference| #[trigger] heap.contains(q) && q != o implies counted(f.s)(
        q.granule(),
    ) == counted(w.s)(q.granule()) by {}
    assert(counted(w.s)(go));
    assert(!counted(f.s)(go));
    assert(!w.s.freed.contains(o.addr));
    assert forall|q: ObjectReference| #[trigger] heap.contains(q) implies object_kept(
        heap,
        f.s,
        base,
        q,
    ) by {
        assert(object_kept(heap, w.s, base, q));
        live_refs_without(heap, w.s, f.s, o, q.granule());
        assert(f.s.freed.contains(q.addr) <==> w.s.freed.contains(q.addr) || q.addr == o.addr) by {
            freed_push(w.s.freed, o.addr, q.addr);
        }
        if q != o {
            assert(q.granule() != go);
            assert(q.addr != o.addr);
        } else {
            assert(base(go) == 1);
        }
    }
    assert forall|p: ObjectReference, q: ObjectReference|
        #![trigger cycle_grey::children(heap, p).contains(q)]
        heap.contains(p) && heap.contains(q) && cycle_grey::children(heap, p).contains(q) && gone(
            f.s,
            q,
        ) implies gone(f.s, p) by {
        if q == o {
            only_gone_refer_to(heap, w.s, base, o, p);
        } else {
            assert(gone(w.s, q));
        }
        assert(gone(w.s, p));
    }
    freed_push_distinct(w.s.freed, o.addr);
    // What is left on the stack was not referred to, and what is new is not on
    // it.
    assert forall|i: int|
        #![trigger f.stack[i]]
        0 <= i < f.stack.len() implies heap.contains(f.stack[i]) && f.s.counts.count(
        f.stack[i].granule(),
    ) == 1 && f.s.is_black(f.stack[i]) && f.stack[i] != o by {
        assert(f.stack[i] == v.stack[i]);
        if i < u.stack.len() {
            assert(v.stack[i] == w.stack[i]);
            let y = w.stack[i];
            assert(y.granule() != go);
            if cycle_laws::occurrences(xs, y.granule()) > 0 {
                doomed_refs_are_counted(c, w.s, base, o, y);
            }
        } else {
            let y = v.stack[i];
            assert(y.granule() != go);
            assert(cycle_laws::occurrences(xs, y.granule()) > 0);
            doomed_refs_are_counted(c, w.s, base, o, y);
        }
    }
    assert forall|i: int, j: int|
        #![trigger f.stack[i], f.stack[j]]
        0 <= i < j < f.stack.len() implies f.stack[i].granule() != f.stack[j].granule() by {
        assert(f.stack[i] == v.stack[i]);
        assert(f.stack[j] == v.stack[j]);
        if j < u.stack.len() {
            assert(v.stack[i] == w.stack[i]);
            assert(v.stack[j] == w.stack[j]);
        } else if i < u.stack.len() {
            assert(v.stack[i] == w.stack[i]);
            assert(w.s.counts.count(w.stack[i].granule()) == 1);
        }
    }
    assert forall|q: ObjectReference| #[trigger]
        heap.contains(q) && w.s.color_of(q) == WHITE implies f.s.color_of(q) == WHITE by {}
}

/// What is listed after one more was listed.
proof fn freed_push(freed: Seq<usize>, a: usize, b: usize)
    ensures
        freed.push(a).contains(b) <==> freed.contains(b) || a == b,
{
    if freed.contains(b) {
        let i = choose|i: int| 0 <= i < freed.len() && freed[i] == b;
        assert(freed.push(a)[i] == b);
    }
    assert(freed.push(a)[freed.len() as int] == a);
    if freed.push(a).contains(b) && a != b {
        let i = choose|i: int| 0 <= i < freed.push(a).len() && freed.push(a)[i] == b;
        assert(freed[i] == b);
    }
}

/// What was not listed is listed once.
proof fn freed_push_distinct(freed: Seq<usize>, a: usize)
    requires
        freed.no_duplicates(),
        !freed.contains(a),
    ensures
        freed.push(a).no_duplicates(),
{
    assert forall|i: int, j: int|
        0 <= i < freed.push(a).len() && 0 <= j < freed.push(a).len() && i
            != j implies freed.push(a)[i] != freed.push(a)[j] by {
        if i == freed.len() {
            assert(freed[j] == freed.push(a)[j]);
        }
        if j == freed.len() {
            assert(freed[i] == freed.push(a)[i]);
        }
    }
}

/// `collect_blacks` keeps what has to be kept, and leaves white what is white,
/// and gone what is gone.
proof fn collect_blacks_keeps(c: Snapshot, w: Walk, base: spec_fn(usize) -> nat)
    requires
        c.wf(),
        apart(c.heap),
        kept(c.heap, w.s, base),
        doomed(c.heap, w.s, w.stack),
    ensures
        kept(c.heap, cycle_model::collect_blacks_all(c, w).s, base),
        forall|q: ObjectReference| #[trigger]
            c.heap.contains(q) && w.s.color_of(q) == WHITE ==> cycle_model::collect_blacks_all(
                c,
                w,
            ).s.color_of(q) == WHITE,
        forall|q: ObjectReference| #[trigger]
            c.heap.contains(q) && gone(w.s, q) ==> gone(
                cycle_model::collect_blacks_all(c, w).s,
                q,
            ),
    decreases
            cycle_model::count_all(c.heap, cycle_model::referenced(w.s)),
            w.stack.len(),
{
    assert(c.holds(w.stack)) by {
        assert forall|i: int| 0 <= i < w.stack.len() implies c.heap.contains(
            #[trigger] w.stack[i],
        ) by {}
    }
    if w.stack.len() > 0 {
        cycle_model::collect_blacks_step_progress(c, w);
        collect_blacks_step_keeps(c, w, base);
        collect_blacks_keeps(c, cycle_model::collect_blacks_step(c, w), base);
    }
}

/// What only objects that are gone refer to has no reference that counts.
proof fn no_live_refs(heap: Heap, s: CycleState, o: ObjectReference, n: nat)
    requires
        heap.wf(),
        heap.contains(o),
        n <= heap.objects@.len(),
        forall|p: ObjectReference|
            #![trigger cycle_grey::children(heap, p).contains(o)]
            heap.contains(p) && cycle_grey::children(heap, p).contains(o) ==> gone(s, p),
    ensures
        cycle_laws::refs_from_some(heap, counted(s), o.granule(), n) == 0,
    decreases n,
{
    if n > 0 {
        no_live_refs(heap, s, o, (n - 1) as nat);
        let p = heap.objects@[n - 1].object;
        assert(heap.contains(p));
        if counted(s)(p.granule()) && cycle_laws::refs_from(heap, n - 1, o.granule()) > 0 {
            let c = Snapshot { heap, unlog: Map::empty(), satb: Map::empty(), tag: 1 };
            cycle_model::children_in_heap(c, p);
            occurs_is_contained(heap, cycle_grey::children(heap, p), o);
            assert(gone(s, p));
        }
    }
}

/// A white object has no count beyond the bias.
proof fn white_count_is_bias(
    heap: Heap,
    s: CycleState,
    base: spec_fn(usize) -> nat,
    o: ObjectReference,
)
    requires
        heap.wf(),
        kept(heap, s, base),
        heap.contains(o),
        s.color_of(o) == WHITE,
    ensures
        s.counts.rc[o.granule()] == 1,
{
    assert(object_kept(heap, s, base, o));
    assert(gone(s, o));
    assert forall|p: ObjectReference|
        #![trigger cycle_grey::children(heap, p).contains(o)]
        heap.contains(p) && cycle_grey::children(heap, p).contains(o) implies gone(s, p) by {}
    no_live_refs(heap, s, o, heap.objects@.len());
}

/// A step of the collection keeps what has to be kept, and reclaims no white
/// object but the one that it visits.
pub proof fn collect_whites_step_keeps(c: Snapshot, w: Walk, base: spec_fn(usize) -> nat)
    requires
        c.wf(),
        apart(c.heap),
        kept(c.heap, w.s, base),
        c.holds(w.stack),
        w.stack.len() > 0,
    ensures
        kept(c.heap, cycle_model::collect_whites_step(c, w).s, base),
        forall|q: ObjectReference| #[trigger]
            c.heap.contains(q) && w.s.color_of(q) == WHITE && q != w.stack.last()
                ==> cycle_model::collect_whites_step(c, w).s.color_of(q) == WHITE,
        forall|q: ObjectReference| #[trigger]
            c.heap.contains(q) && gone(w.s, q) ==> gone(
                cycle_model::collect_whites_step(c, w).s,
                q,
            ),
{
    let heap = c.heap;
    let o = w.stack.last();
    let go = o.granule();
    let f = cycle_model::collect_whites_step(c, w);
    cycle_model::pop_in_heap(c, w.stack);
    assert(object_kept(heap, w.s, base, o));
    if w.s.color_of(o) == WHITE {
        white_count_is_bias(heap, w.s, base, o);
        reclaim_takes_one(heap, w.s, o);
        assert forall|q: ObjectReference| #[trigger] heap.contains(q) && q != o implies {
            &&& f.s.counts.rc[q.granule()] == w.s.counts.rc[q.granule()]
            &&& f.s.color[q.granule()] == w.s.color[q.granule()]
        } by {
            assert(q.granule() != go);
        }
        assert forall|q: ObjectReference| #[trigger] heap.contains(q) implies counted(f.s)(
            q.granule(),
        ) == counted(w.s)(q.granule()) by {}
        assert forall|q: ObjectReference| #[trigger] heap.contains(q) implies object_kept(
            heap,
            f.s,
            base,
            q,
        ) by {
            assert(object_kept(heap, w.s, base, q));
            live_refs_same(heap, w.s, f.s, q.granule());
            freed_push(w.s.freed, o.addr, q.addr);
            if q != o {
                assert(q.granule() != go);
                assert(q.addr != o.addr);
            }
        }
        assert forall|p: ObjectReference, q: ObjectReference|
            #![trigger cycle_grey::children(heap, p).contains(q)]
            heap.contains(p) && heap.contains(q) && cycle_grey::children(heap, p).contains(q)
                && gone(f.s, q) implies gone(f.s, p) by {
            assert(gone(w.s, q));
            assert(gone(w.s, p));
        }
        freed_push_distinct(w.s.freed, o.addr);
    } else if w.s.color_of(o) == BLACK_IN_STACK && w.s.counts.rc[go] == 1 {
        let start = cycle_model::walk_from(w.s, o, w.visited.wrapping_add(1), 0);
        assert(doomed(heap, start.s, start.stack));
        collect_blacks_keeps(c, start, base);
    }
}

/// Whether everything that `q` refers to is on the stack or not white, for every
/// `q` that was white at first and is not any more.
pub open spec fn collected_sons_follow(
    heap: Heap,
    first: Map<usize, u8>,
    color: Map<usize, u8>,
    stack: Seq<ObjectReference>,
) -> bool {
    forall|q: ObjectReference, x: ObjectReference|
        #![trigger cycle_grey::children(heap, q).contains(x)]
        heap.contains(q) && first[q.granule()] == 3 && color[q.granule()] != 3
            && cycle_grey::children(heap, q).contains(x) ==> color[x.granule()] != 3
            || stack.contains(x)
}

/// The collection from one candidate keeps what has to be kept, and leaves
/// nothing white that a reclaimed white object refers to.
proof fn collect_whites_keeps(
    c: Snapshot,
    w: Walk,
    base: spec_fn(usize) -> nat,
    first: Map<usize, u8>,
)
    requires
        c.wf(),
        apart(c.heap),
        kept(c.heap, w.s, base),
        c.holds(w.stack),
        collected_sons_follow(c.heap, first, w.s.color, w.stack),
    ensures
        kept(c.heap, cycle_model::collect_whites_all(c, w).s, base),
        collected_sons_follow(
            c.heap,
            first,
            cycle_model::collect_whites_all(c, w).s.color,
            Seq::empty(),
        ),
        forall|g: usize| #[trigger] cycle_model::collect_whites_all(c, w).s.color[g] == 3
            ==> w.s.color[g] == 3,
        forall|i: int|
            0 <= i < w.stack.len() ==> cycle_model::collect_whites_all(c, w).s.color_of(
                #[trigger] w.stack[i],
            ) != WHITE,
        forall|q: ObjectReference| #[trigger]
            c.heap.contains(q) && gone(w.s, q) ==> gone(
                cycle_model::collect_whites_all(c, w).s,
                q,
            ),
    decreases cycle_model::count_all(c.heap, cycle_model::white(w.s)), w.stack.len(),
{
    let heap = c.heap;
    if w.stack.len() > 0 {
        let o = w.stack.last();
        let v = cycle_model::collect_whites_step(c, w);
        let f = cycle_model::collect_whites_all(c, w);
        cycle_model::collect_whites_step_progress(c, w);
        cycle_model::pop_in_heap(c, w.stack);
        collect_whites_step_keeps(c, w, base);
        assert forall|q: ObjectReference, x: ObjectReference|
            #![trigger cycle_grey::children(heap, q).contains(x)]
            heap.contains(q) && first[q.granule()] == 3 && v.s.color[q.granule()] != 3
                && cycle_grey::children(heap, q).contains(x) implies v.s.color[x.granule()] != 3
            || v.stack.contains(x) by {
            let xs = cycle_grey::children(heap, q);
            if v.s.color[x.granule()] == 3 {
                assert(w.s.color[x.granule()] == 3);
                if w.s.color[q.granule()] == 3 {
                    assert(w.s.color_of(q) == WHITE);
                    assert(q == o);
                    let i = choose|i: int| 0 <= i < xs.len() && xs[i] == x;
                    assert(v.stack[w.stack.len() - 1 + i] == x);
                } else {
                    let i = choose|i: int| 0 <= i < w.stack.len() && w.stack[i] == x;
                    assert(x != o);
                    assert(i < w.stack.len() - 1);
                    assert(v.stack[i] == x);
                }
            }
        }
        collect_whites_keeps(c, v, base, first);
        assert forall|g: usize| #[trigger] f.s.color[g] == 3 implies w.s.color[g] == 3 by {
            assert(v.s.color[g] == 3);
        }
        assert forall|i: int| 0 <= i < w.stack.len() implies f.s.color_of(
            #[trigger] w.stack[i],
        ) != WHITE by {
            if i == w.stack.len() - 1 {
                assert(v.s.color[o.granule()] != 3);
                if f.s.color[o.granule()] == 3 {
                    assert(v.s.color[o.granule()] == 3);
                }
            } else {
                assert(v.stack[i] == w.stack[i]);
            }
        }
    } else {
        assert(w.stack =~= Seq::empty());
    }
}

/// The collect phase keeps what has to be kept, and leaves neither a candidate
/// white nor anything that a reclaimed white object refers to.
proof fn collect_each_keeps(
    c: Snapshot,
    w: Walk,
    xs: Seq<ObjectReference>,
    base: spec_fn(usize) -> nat,
    first: Map<usize, u8>,
)
    requires
        c.wf(),
        apart(c.heap),
        kept(c.heap, w.s, base),
        c.holds(xs),
        collected_sons_follow(c.heap, first, w.s.color, Seq::empty()),
    ensures
        kept(c.heap, cycle_phases::collect_each(c, w, xs).s, base),
        collected_sons_follow(
            c.heap,
            first,
            cycle_phases::collect_each(c, w, xs).s.color,
            Seq::empty(),
        ),
        forall|i: int|
            0 <= i < xs.len() ==> cycle_phases::collect_each(c, w, xs).s.color_of(
                #[trigger] xs[i],
            ) != WHITE,
        forall|g: usize| #[trigger] cycle_phases::collect_each(c, w, xs).s.color[g] == 3
            ==> w.s.color[g] == 3,
        forall|q: ObjectReference| #[trigger]
            c.heap.contains(q) && gone(w.s, q) ==> gone(
                cycle_phases::collect_each(c, w, xs).s,
                q,
            ),
    decreases xs.len(),
{
    if xs.len() > 0 {
        let p = xs.drop_last();
        cycle_model::pop_in_heap(c, xs);
        collect_each_keeps(c, w, p, base, first);
        let v = cycle_phases::collect_each(c, w, p);
        let start = cycle_model::walk_from(v.s, xs.last(), v.visited, 0);
        assert(c.holds(start.stack));
        assert forall|q: ObjectReference, x: ObjectReference|
            #![trigger cycle_grey::children(c.heap, q).contains(x)]
            c.heap.contains(q) && first[q.granule()] == 3 && start.s.color[q.granule()] != 3
                && cycle_grey::children(c.heap, q).contains(x) implies start.s.color[x.granule()]
            != 3 || start.stack.contains(x) by {
            assert(!Seq::<ObjectReference>::empty().contains(x));
        }
        collect_whites_keeps(c, start, base, first);
        let f = cycle_phases::collect_each(c, w, xs);
        assert forall|i: int| 0 <= i < xs.len() implies f.s.color_of(#[trigger] xs[i])
            != WHITE by {
            if i == xs.len() - 1 {
                assert(start.stack[0] == xs[i]);
            } else {
                assert(p[i] == xs[i]);
                if f.s.color[xs[i].granule()] == 3 {
                    assert(v.s.color[xs[i].granule()] == 3);
                }
            }
        }
        assert forall|g: usize| #[trigger] f.s.color[g] == 3 implies w.s.color[g] == 3 by {
            assert(v.s.color[g] == 3);
        }
    }
}

/// Whether every white object is in `z`, as far as it is white at the end too.
pub open spec fn whites_within(
    heap: Heap,
    color: Map<usize, u8>,
    end: Map<usize, u8>,
    z: spec_fn(usize) -> bool,
) -> bool {
    forall|q: ObjectReference| #[trigger]
        heap.contains(q) && color[q.granule()] == 3 && end[q.granule()] == 3 ==> z(q.granule())
}

/// Whether at the end only white objects refer to a white object.
pub open spec fn end_closed(heap: Heap, end: Map<usize, u8>) -> bool {
    forall|p: ObjectReference, x: ObjectReference|
        #![trigger cycle_grey::children(heap, p).contains(x)]
        heap.contains(p) && heap.contains(x) && cycle_grey::children(heap, p).contains(x)
            && end[x.granule()] == 3 ==> end[p.granule()] == 3
}

/// Whether what an object in `z` refers to is in `z`, if the object is white at
/// the end.
pub open spec fn closed_under_refs(
    heap: Heap,
    end: Map<usize, u8>,
    z: spec_fn(usize) -> bool,
) -> bool {
    forall|p: ObjectReference, x: ObjectReference|
        #![trigger cycle_grey::children(heap, p).contains(x)]
        heap.contains(p) && end[p.granule()] == 3 && z(p.granule()) && cycle_grey::children(
            heap,
            p,
        ).contains(x) ==> z(x.granule())
}

/// The scan from one candidate reaches what it turns white by way of objects
/// that it turns white.
proof fn scan_whitens_within(
    c: Snapshot,
    w: Walk,
    end: Map<usize, u8>,
    z: spec_fn(usize) -> bool,
)
    requires
        c.wf(),
        c.holds(w.stack),
        c.covers(w.s.color),
        cycle_laws::rest_unlogged(c, w.s.color),
        end_closed(c.heap, end),
        closed_under_refs(c.heap, end, z),
        whites_within(c.heap, w.s.color, end, z),
        forall|i: int|
            #![trigger w.stack[i]]
            0 <= i < w.stack.len() && end[w.stack[i].granule()] == 3 ==> z(w.stack[i].granule()),
        forall|g: usize| #[trigger] w.s.color[g] <= 3,
    ensures
        whites_within(c.heap, cycle_model::scan_all(c, w).s.color, end, z),
        cycle_laws::rest_unlogged(c, cycle_model::scan_all(c, w).s.color),
        forall|g: usize| #[trigger] cycle_model::scan_all(c, w).s.color[g] <= 3,
    decreases cycle_model::count_all(c.heap, cycle_model::grey(w.s)), w.stack.len(),
{
    let heap = c.heap;
    if w.stack.len() > 0 {
        let o = w.stack.last();
        let v = cycle_model::scan_step(c, w);
        cycle_model::scan_step_progress(c, w);
        cycle_model::pop_in_heap(c, w.stack);
        assert(w.stack[w.stack.len() - 1] == o);
        assert forall|k: int, j: int|
            #![trigger heap.objects@[k].slots@[j]]
            0 <= k < heap.objects@.len() && 0 <= j < heap.objects@[k].slots@.len()
                && v.s.color[heap.objects@[k].object.granule()] >= 2
                implies c.unlog[heap.objects@[k].slots@[j]] == 1 by {
            assert(w.s.color[heap.objects@[k].object.granule()] >= 2);
        }
        if w.s.color_of(o) == GREY && w.s.counts.rc[o.granule()] > 1 {
            let start = cycle_model::walk_from(w.s, o, w.nested, 0);
            assert(c.holds(start.stack));
            cycle_model::scan_black_all_blackens(c, start);
            assert forall|q: ObjectReference| #[trigger]
                heap.contains(q) && v.s.color[q.granule()] == 3 && end[q.granule()]
                    == 3 implies z(q.granule()) by {
                assert(w.s.color[q.granule()] == 3);
            }
            assert forall|g: usize| #[trigger] v.s.color[g] <= 3 by {
                assert(w.s.color[g] <= 3);
            }
        } else if w.s.color_of(o) == GREY {
            let k = heap.place(o);
            assert forall|j: int| 0 <= j < heap.slots(o).len() implies c.unlog[#[trigger] heap.slots(
                o,
            )[j]] == 1 by {
                assert(heap.objects@[k].slots@[j] == heap.slots(o)[j]);
                assert(heap.objects@[k].object == o);
            }
            cycle_laws::unlogged_refs_are_current(c, heap.slots(o));
            let xs = cycle_grey::children(heap, o);
            assert forall|i: int|
                #![trigger v.stack[i]]
                0 <= i < v.stack.len() && end[v.stack[i].granule()] == 3 implies z(
                v.stack[i].granule(),
            ) by {
                if i < w.stack.len() - 1 {
                    assert(v.stack[i] == w.stack[i]);
                } else {
                    let x = xs[i - (w.stack.len() - 1)];
                    assert(v.stack[i] == x);
                    assert(heap.contains(x));
                    assert(cycle_grey::children(heap, o).contains(x));
                }
            }
            assert forall|q: ObjectReference| #[trigger]
                heap.contains(q) && v.s.color[q.granule()] == 3 && end[q.granule()]
                    == 3 implies z(q.granule()) by {}
        }
        assert forall|i: int|
            #![trigger v.stack[i]]
            0 <= i < v.stack.len() && end[v.stack[i].granule()] == 3 implies z(
            v.stack[i].granule(),
        ) by {
            if i < w.stack.len() - 1 {
                assert(v.stack[i] == w.stack[i]);
            }
        }
        scan_whitens_within(c, v, end, z);
    }
}

/// The scan phase reaches what it turns white from the candidates, by way of
/// objects that it turns white.
proof fn scan_each_whitens_within(
    c: Snapshot,
    w: Walk,
    xs: Seq<ObjectReference>,
    end: Map<usize, u8>,
    z: spec_fn(usize) -> bool,
)
    requires
        c.wf(),
        c.holds(xs),
        c.covers(w.s.color),
        cycle_laws::rest_unlogged(c, w.s.color),
        end_closed(c.heap, end),
        closed_under_refs(c.heap, end, z),
        whites_within(c.heap, w.s.color, end, z),
        forall|i: int|
            #![trigger xs[i]]
            0 <= i < xs.len() && end[xs[i].granule()] == 3 ==> z(xs[i].granule()),
        forall|g: usize| #[trigger] w.s.color[g] <= 3,
    ensures
        whites_within(c.heap, cycle_phases::scan_each(c, w, xs).s.color, end, z),
        cycle_laws::rest_unlogged(c, cycle_phases::scan_each(c, w, xs).s.color),
        forall|g: usize| #[trigger] cycle_phases::scan_each(c, w, xs).s.color[g] <= 3,
    decreases xs.len(),
{
    if xs.len() > 0 {
        let p = xs.drop_last();
        cycle_model::pop_in_heap(c, xs);
        assert forall|i: int|
            #![trigger p[i]]
            0 <= i < p.len() && end[p[i].granule()] == 3 implies z(p[i].granule()) by {
            assert(p[i] == xs[i]);
        }
        scan_each_whitens_within(c, w, p, end, z);
        cycle_phases::scan_each_covers(c, w, p);
        let v = cycle_phases::scan_each(c, w, p);
        let start = cycle_model::walk_from(v.s, xs.last(), v.visited, v.nested);
        assert(c.holds(start.stack));
        assert(xs[xs.len() - 1] == xs.last());
        scan_whitens_within(c, start, end, z);
    }
}

/// Trial deletion reclaims nothing.
proof fn mark_reclaims_nothing(c: Snapshot, w: Walk)
    requires
        c.wf(),
        c.holds(w.stack),
    ensures
        cycle_model::mark_all(c, w).s.freed == w.s.freed,
    decreases
            cycle_model::count_all(c.heap, cycle_model::unmarked(w.s)),
            w.stack.len(),
{
    if w.stack.len() > 0 {
        let o = w.stack.last();
        cycle_model::mark_step_progress(c, w);
        if cycle_model::markable(w.s, o) {
            let xs = cycle_model::refs(c.heap, c.unlogged_slots(o));
            let s1 = w.s.paint(o, GREY);
            cycle_model::take_away_frame(s1, xs);
            cycle_model::give_back_frame(
                cycle_model::take_away(s1, xs).paint(o, BLACK_IN_STACK),
                xs,
                c.tag,
            );
        }
        mark_reclaims_nothing(c, cycle_model::mark_step(c, w));
    }
}

/// The mark phase reclaims nothing.
proof fn mark_buffers_reclaims_nothing(c: Snapshot, vec_index: u8, b: BufferWalk)
    requires
        c.wf(),
        b.wf(),
        cycle_phases::all_in_heap(c, b.buffers),
    ensures
        cycle_phases::mark_buffers(c, vec_index, b).s.freed == b.s.freed,
    decreases b.pending().len(),
{
    let (bi, ei) = buffer::seek(b.buffers, b.bi, b.ei);
    if bi < b.buffers.len() {
        cycle_phases::mark_buffer_step_progress(c, vec_index, b);
        let o = b.buffers[bi][ei];
        if cycle_phases::should_mark(b.s, o, vec_index) {
            let w = cycle_model::walk_from(b.s.tagged(o, 0), o, b.visited, 0);
            assert(c.holds(w.stack));
            mark_reclaims_nothing(c, w);
        }
        mark_buffers_reclaims_nothing(
            c,
            vec_index,
            cycle_phases::mark_buffer_step(c, vec_index, b),
        );
    }
}

/// Restoring reclaims nothing and makes no candidates.
proof fn scan_black_reclaims_nothing(c: Snapshot, w: Walk)
    requires
        c.wf(),
        c.holds(w.stack),
        c.covers(w.s.color),
    ensures
        cycle_model::scan_black_all(c, w).s.freed == w.s.freed,
        cycle_model::scan_black_all(c, w).s.cand == w.s.cand,
    decreases
            cycle_model::count_all(c.heap, cycle_model::not_black(w.s)),
            w.stack.len(),
{
    if w.stack.len() > 0 {
        let o = w.stack.last();
        cycle_model::scan_black_step_progress(c, w);
        let t = w.s.paint(o, BLACK_IN_STACK).with_strong(
            o,
            cycle_model::restored_strong(w.s.counts.rc[o.granule()]),
        );
        cycle_model::restore_frame(t, cycle_model::satb_refs(c, c.heap.slots(o)));
        scan_black_reclaims_nothing(c, cycle_model::scan_black_step(c, w));
    }
}

/// A scan reclaims nothing and makes no candidates.
proof fn scan_reclaims_nothing(c: Snapshot, w: Walk)
    requires
        c.wf(),
        c.holds(w.stack),
        c.covers(w.s.color),
    ensures
        cycle_model::scan_all(c, w).s.freed == w.s.freed,
        cycle_model::scan_all(c, w).s.cand == w.s.cand,
    decreases cycle_model::count_all(c.heap, cycle_model::grey(w.s)), w.stack.len(),
{
    if w.stack.len() > 0 {
        let o = w.stack.last();
        cycle_model::scan_step_progress(c, w);
        cycle_model::pop_in_heap(c, w.stack);
        let start = cycle_model::walk_from(w.s, o, w.nested, 0);
        assert(c.holds(start.stack));
        scan_black_reclaims_nothing(c, start);
        scan_reclaims_nothing(c, cycle_model::scan_step(c, w));
    }
}

/// The scan phase reclaims nothing and makes no candidates.
pub proof fn scan_each_reclaims_nothing(c: Snapshot, w: Walk, xs: Seq<ObjectReference>)
    requires
        c.wf(),
        c.holds(xs),
        c.covers(w.s.color),
    ensures
        cycle_phases::scan_each(c, w, xs).s.freed == w.s.freed,
        cycle_phases::scan_each(c, w, xs).s.cand == w.s.cand,
    decreases xs.len(),
{
    if xs.len() > 0 {
        let p = xs.drop_last();
        cycle_model::pop_in_heap(c, xs);
        scan_each_reclaims_nothing(c, w, p);
        cycle_phases::scan_each_covers(c, w, p);
        let v = cycle_phases::scan_each(c, w, p);
        let start = cycle_model::walk_from(v.s, xs.last(), v.visited, v.nested);
        assert(c.holds(start.stack));
        scan_reclaims_nothing(c, start);
    }
}

/// Whether a collection can begin with the state `s`.
///
/// Every object is black and alive, none was reclaimed before, and every count
/// is what `base` says, and one for each reference that an object holds.
pub open spec fn ready(c: Snapshot, s: CycleState, base: spec_fn(usize) -> nat) -> bool {
    &&& c.wf()
    &&& apart(c.heap)
    &&& c.covers(s.color)
    &&& cycle_soundness::all_black(s.color)
    &&& cycle_laws::accounts(c.heap, s, base)
    &&& cycle_laws::in_range(c.heap, base)
    &&& s.freed.no_duplicates()
    &&& forall|o: ObjectReference| #[trigger]
        c.heap.contains(o) ==> base(o.granule()) >= 1 && !s.freed.contains(o.addr)
}

/// How many references to granule `g` objects hold that are alive.
pub open spec fn alive_refs(heap: Heap, s: CycleState, g: usize) -> nat {
    cycle_laws::refs_from_some(
        heap,
        |h: usize| s.counts.rc[h] != 0,
        g,
        heap.objects@.len(),
    )
}

/// What a collection leaves.
///
/// A reclaimed object has no count left. It had no reference from outside, and
/// every object that refers to it was reclaimed too. An object that was not
/// reclaimed is black, and its count is what `base` says, and one for each
/// reference that an object holds that was not reclaimed. Nothing was reclaimed
/// twice.
pub open spec fn only_garbage_gone(
    heap: Heap,
    s: CycleState,
    base: spec_fn(usize) -> nat,
) -> bool {
    &&& s.freed.no_duplicates()
    &&& forall|o: ObjectReference| #[trigger]
        heap.contains(o) ==> {
            &&& s.is_black(o)
            &&& s.counts.rc[o.granule()] == 0 <==> s.freed.contains(o.addr)
            &&& s.freed.contains(o.addr) ==> base(o.granule()) == 1
            &&& !s.freed.contains(o.addr) ==> s.counts.count(o.granule()) == base(o.granule())
                + alive_refs(heap, s, o.granule())
        }
    &&& forall|p: ObjectReference, o: ObjectReference|
        #![trigger cycle_grey::children(heap, p).contains(o)]
        heap.contains(p) && heap.contains(o) && cycle_grey::children(heap, p).contains(o)
            && s.freed.contains(o.addr) ==> s.freed.contains(p.addr)
}

/// After the scan phase, what the collect phase keeps begins to hold.
pub proof fn kept_after_scan(
    c: Snapshot,
    w: Walk,
    xs: Seq<ObjectReference>,
    base: spec_fn(usize) -> nat,
)
    requires
        c.wf(),
        c.holds(xs),
        c.covers(w.s.color),
        cycle_soundness::marking_invariant(c, w.s, base),
        cycle_grey::all_grey_reached(c.heap, w.s.color, xs),
        w.s.freed.no_duplicates(),
        forall|o: ObjectReference| #[trigger]
            c.heap.contains(o) ==> base(o.granule()) >= 1 && !w.s.freed.contains(o.addr),
    ensures
        kept(c.heap, cycle_phases::scan_each(c, w, xs).s, base),
        end_closed(c.heap, cycle_phases::scan_each(c, w, xs).s.color),
{
    let heap = c.heap;
    let f = cycle_phases::scan_each(c, w, xs);
    assert(cycle_laws::whites_settled(w.s, Seq::empty())) by {
        assert forall|g: usize|
            #![trigger w.s.color[g]]
            w.s.color[g] == 3 && !cycle_laws::on_stack(Seq::empty(), g) implies w.s.counts.count(g)
            <= 1 by {}
    }
    cycle_soundness::scan_each_keeps_accounts(c, w, xs, base);
    scan_each_reclaims_nothing(c, w, xs);
    let all = Map::<usize, u8>::total(|g: usize| 0u8);
    let any = |g: usize| true;
    assert forall|g: usize| #[trigger] w.s.color[g] <= 3 by {
        assert(w.s.color[g] <= 2);
    }
    scan_each_whitens_within(c, w, xs, all, any);
    assert forall|p: ObjectReference, o: ObjectReference|
        #![trigger cycle_grey::children(heap, p).contains(o)]
        heap.contains(p) && heap.contains(o) && cycle_grey::children(heap, p).contains(o)
            && f.s.color[o.granule()] == 3 implies f.s.color[p.granule()] == 3 && base(
        o.granule(),
    ) == 1 by {
        cycle_soundness::white_after_scan_is_garbage(c, w, xs, base, o, p);
        assert(f.s.color[p.granule()] <= 3);
    }
    assert forall|o: ObjectReference| #[trigger] heap.contains(o) implies object_kept(
        heap,
        f.s,
        base,
        o,
    ) by {
        let g = o.granule();
        cycle_grey::scan_leaves_nothing_grey(c, w, xs, o);
        assert(f.s.color[g] <= 3);
        assert(f.s.counts.count(g) == base(g) + cycle_laws::black_refs(heap, f.s.color, g));
        assert(f.s.counts.excess[g] != 0 ==> f.s.counts.rc[g] == 255);
        assert forall|i: int| 0 <= i < heap.objects@.len() implies counted(f.s)(
            #[trigger] heap.objects@[i].object.granule(),
        ) == cycle_laws::black(f.s.color)(heap.objects@[i].object.granule()) by {
            let q = heap.objects@[i].object;
            assert(heap.contains(q));
            assert(f.s.counts.count(q.granule()) == base(q.granule()) + cycle_laws::black_refs(
                heap,
                f.s.color,
                q.granule(),
            ));
        }
        cycle_laws::refs_from_some_equal(
            heap,
            counted(f.s),
            cycle_laws::black(f.s.color),
            g,
            heap.objects@.len(),
        );
        if f.s.color[g] == 3 {
            assert(!cycle_laws::on_stack(Seq::empty(), g));
            assert(f.s.counts.count(g) <= 1);
        }
    }
    assert forall|p: ObjectReference, o: ObjectReference|
        #![trigger cycle_grey::children(heap, p).contains(o)]
        heap.contains(p) && heap.contains(o) && cycle_grey::children(heap, p).contains(o) && gone(
            f.s,
            o,
        ) implies gone(f.s, p) by {
        assert(object_kept(heap, f.s, base, o));
    }
}

/// From the end of the mark phase on, only garbage is reclaimed, and all that
/// the scan found.
proof fn only_garbage_gone_after_mark(
    c: Snapshot,
    w: Walk,
    xs: Seq<ObjectReference>,
    visited: usize,
    base: spec_fn(usize) -> nat,
)
    requires
        c.wf(),
        apart(c.heap),
        c.holds(xs),
        c.covers(w.s.color),
        cycle_soundness::marking_invariant(c, w.s, base),
        cycle_grey::all_grey_reached(c.heap, w.s.color, xs),
        w.s.freed.no_duplicates(),
        forall|o: ObjectReference| #[trigger]
            c.heap.contains(o) ==> base(o.granule()) >= 1 && !w.s.freed.contains(o.addr),
    ensures
        only_garbage_gone(
            c.heap,
            cycle_phases::collect_each(
                c,
                cycle_phases::carry(cycle_phases::scan_each(c, w, xs).s, visited, 0),
                xs,
            ).s,
            base,
        ),
        forall|o: ObjectReference| #[trigger]
            c.heap.contains(o) && cycle_phases::scan_each(c, w, xs).s.color_of(o) == WHITE
                ==> cycle_phases::collect_each(
                c,
                cycle_phases::carry(cycle_phases::scan_each(c, w, xs).s, visited, 0),
                xs,
            ).s.freed.contains(o.addr),
{
    let heap = c.heap;
    let sc = cycle_phases::scan_each(c, w, xs);
    let end = sc.s.color;
    let u = cycle_phases::carry(sc.s, visited, 0);
    let f = cycle_phases::collect_each(c, u, xs);
    kept_after_scan(c, w, xs, base);
    assert(collected_sons_follow(heap, end, u.s.color, Seq::empty()));
    collect_each_keeps(c, u, xs, base, end);
    // What was white and is not any more holds every white object.
    let z = |g: usize| f.s.color[g] != 3;
    assert(closed_under_refs(heap, end, z)) by {
        assert forall|p: ObjectReference, x: ObjectReference|
            #![trigger cycle_grey::children(heap, p).contains(x)]
            heap.contains(p) && end[p.granule()] == 3 && z(p.granule()) && cycle_grey::children(
                heap,
                p,
            ).contains(x) implies z(x.granule()) by {
            assert(!Seq::<ObjectReference>::empty().contains(x));
        }
    }
    assert forall|i: int|
        #![trigger xs[i]]
        0 <= i < xs.len() && end[xs[i].granule()] == 3 implies z(xs[i].granule()) by {
        assert(f.s.color_of(xs[i]) != WHITE);
    }
    assert forall|g: usize| #[trigger] w.s.color[g] <= 3 by {
        assert(w.s.color[g] <= 2);
    }
    scan_each_whitens_within(c, w, xs, end, z);
    assert forall|o: ObjectReference| #[trigger] heap.contains(o) implies f.s.is_black(o) by {
        assert(object_kept(heap, f.s, base, o));
        if f.s.color[o.granule()] == 3 {
            assert(end[o.granule()] == 3);
            assert(z(o.granule()));
        }
    }
    assert forall|o: ObjectReference| #[trigger]
        heap.contains(o) && sc.s.color_of(o) == WHITE implies f.s.freed.contains(o.addr) by {
        assert(gone(u.s, o));
        assert(gone(f.s, o));
        assert(object_kept(heap, f.s, base, o));
    }
    let alive = |h: usize| f.s.counts.rc[h] != 0;
    assert forall|o: ObjectReference| #[trigger] heap.contains(o) implies {
        &&& f.s.is_black(o)
        &&& f.s.counts.rc[o.granule()] == 0 <==> f.s.freed.contains(o.addr)
        &&& f.s.freed.contains(o.addr) ==> base(o.granule()) == 1
        &&& !f.s.freed.contains(o.addr) ==> f.s.counts.count(o.granule()) == base(o.granule())
            + alive_refs(heap, f.s, o.granule())
    } by {
        assert(object_kept(heap, f.s, base, o));
        assert forall|i: int| 0 <= i < heap.objects@.len() implies counted(f.s)(
            #[trigger] heap.objects@[i].object.granule(),
        ) == alive(heap.objects@[i].object.granule()) by {
            assert(heap.contains(heap.objects@[i].object));
        }
        cycle_laws::refs_from_some_equal(
            heap,
            counted(f.s),
            alive,
            o.granule(),
            heap.objects@.len(),
        );
    }
    assert forall|p: ObjectReference, o: ObjectReference|
        #![trigger cycle_grey::children(heap, p).contains(o)]
        heap.contains(p) && heap.contains(o) && cycle_grey::children(heap, p).contains(o)
            && f.s.freed.contains(o.addr) implies f.s.freed.contains(p.addr) by {
        assert(gone(f.s, o));
        assert(gone(f.s, p));
    }
}

/// The state of the tables after the mark phase of the collection of one pool,
/// and the candidates that it has marked from.
pub open spec fn marked_pool(
    c: Snapshot,
    s: CycleState,
    buffers: Seq<Seq<ObjectReference>>,
    vec_index: u8,
    stats: CycleCollectorStats,
) -> (CycleState, Seq<ObjectReference>) {
    let m = cycle_phases::mark_buffers(
        c,
        vec_index,
        cycle_phases::buffers_from(s, buffers, stats.objects_in_mark),
    );
    (m.s, m.buffers.flatten())
}

/// The state of the tables after the mark phase of the collection of all pools,
/// and the candidates that it has marked from.
pub open spec fn marked_all_pools(
    lxr: Lxr,
    heap: Heap,
    d: (Seq<Seq<ObjectReference>>, Seq<Seq<ObjectReference>>, Seq<Seq<ObjectReference>>),
    stats: CycleCollectorStats,
) -> (CycleState, Seq<ObjectReference>) {
    let (m0, m1, m2) = gc_work::mark_rounds(
        lxr.curr_vec,
        lxr.snapshot(heap),
        gc_work::unreported(lxr.cycle_state()),
        d,
        stats.objects_in_mark,
    );
    (m2.s, m0.buffers.flatten() + m1.buffers.flatten() + m2.buffers.flatten())
}

/// The state of the tables after the scan phase that follows.
pub open spec fn scanned(
    c: Snapshot,
    marked: (CycleState, Seq<ObjectReference>),
    stats: CycleCollectorStats,
) -> CycleState {
    cycle_phases::scan_each(
        c,
        cycle_phases::carry(marked.0, stats.objects_in_scan, stats.objects_in_scan_black),
        marked.1,
    ).s
}

/// What holds when the mark phase has ended.
pub open spec fn ready_to_scan(
    c: Snapshot,
    marked: (CycleState, Seq<ObjectReference>),
    base: spec_fn(usize) -> nat,
) -> bool {
    &&& c.holds(marked.1)
    &&& c.covers(marked.0.color)
    &&& cycle_soundness::marking_invariant(c, marked.0, base)
    &&& cycle_grey::all_grey_reached(c.heap, marked.0.color, marked.1)
    &&& marked.0.freed.no_duplicates()
    &&& forall|o: ObjectReference| #[trigger]
        c.heap.contains(o) ==> base(o.granule()) >= 1 && !marked.0.freed.contains(o.addr)
}

/// What the mark phase of the collection of one pool leaves can be scanned.
pub proof fn pool_is_ready_to_scan(
    c: Snapshot,
    s: CycleState,
    buffers: Seq<Seq<ObjectReference>>,
    vec_index: u8,
    stats: CycleCollectorStats,
    base: spec_fn(usize) -> nat,
)
    requires
        ready(c, s, base),
        cycle_phases::all_in_heap(c, buffers),
    ensures
        ready_to_scan(c, marked_pool(c, s, buffers, vec_index, stats), base),
{
    let b = cycle_phases::buffers_from(s, buffers, stats.objects_in_mark);
    let m = cycle_phases::mark_buffers(c, vec_index, b);
    let xs = m.buffers.flatten();
    cycle_soundness::start_invariant(c, s, base);
    cycle_soundness::mark_buffers_keeps_invariant(c, vec_index, b, base);
    cycle_phases::mark_buffers_covers(c, vec_index, b);
    cycle_phases::flatten_in_heap(c, m.buffers);
    cycle_soundness::nothing_grey_is_reached(
        c.heap,
        s.color,
        Seq::empty() + cycle_grey::passed(buffers, 0, 0),
    );
    cycle_grey::mark_buffers_reaches(c, vec_index, b, Seq::empty());
    assert(Seq::empty() + xs =~= xs);
    mark_buffers_reclaims_nothing(c, vec_index, b);
}

/// What the mark phase of the collection of all pools leaves can be scanned.
pub proof fn all_pools_are_ready_to_scan(
    lxr: Lxr,
    heap: Heap,
    d: (Seq<Seq<ObjectReference>>, Seq<Seq<ObjectReference>>, Seq<Seq<ObjectReference>>),
    stats: CycleCollectorStats,
    base: spec_fn(usize) -> nat,
)
    requires
        lxr.curr_vec < 3,
        ready(lxr.snapshot(heap), gc_work::unreported(lxr.cycle_state()), base),
        cycle_phases::all_in_heap(lxr.snapshot(heap), d.0),
        cycle_phases::all_in_heap(lxr.snapshot(heap), d.1),
        cycle_phases::all_in_heap(lxr.snapshot(heap), d.2),
    ensures
        ready_to_scan(lxr.snapshot(heap), marked_all_pools(lxr, heap, d, stats), base),
{
    let c = lxr.snapshot(heap);
    let s = gc_work::unreported(lxr.cycle_state());
    let curr = lxr.curr_vec;
    let (m0, m1, m2) = gc_work::mark_rounds(curr, c, s, d, stats.objects_in_mark);
    let (l0, l1, l2) = (m0.buffers.flatten(), m1.buffers.flatten(), m2.buffers.flatten());
    cycle_soundness::start_invariant(c, s, base);
    cycle_soundness::nothing_grey_is_reached(c.heap, s.color, Seq::empty());
    cycle_soundness::round_keeps(
        curr,
        c,
        0,
        s,
        d.0,
        stats.objects_in_mark,
        base,
        Seq::empty(),
    );
    assert(Seq::empty() + l0 =~= l0);
    cycle_soundness::round_keeps(curr, c, 1, m0.s, d.1, m0.visited, base, l0);
    cycle_soundness::round_keeps(curr, c, 2, m1.s, d.2, m1.visited, base, l0 + l1);
    cycle_model::concat_in_heap(c, l0, l1);
    cycle_model::concat_in_heap(c, l0 + l1, l2);
    round_reclaims_nothing(curr, c, 0, s, d.0, stats.objects_in_mark);
    round_reclaims_nothing(curr, c, 1, m0.s, d.1, m0.visited);
    round_reclaims_nothing(curr, c, 2, m1.s, d.2, m1.visited);
}

/// The collection of one pool reclaims only garbage.
///
/// When it ends, a reclaimed object had no reference from outside, and every
/// object that refers to it was reclaimed with it. Every other object is black
/// again, and its count is right for what is left. Nothing was reclaimed twice.
pub proof fn pool_collection_reclaims_only_garbage(
    c: Snapshot,
    s: CycleState,
    buffers: Seq<Seq<ObjectReference>>,
    vec_index: u8,
    stats: CycleCollectorStats,
    base: spec_fn(usize) -> nat,
)
    requires
        ready(c, s, base),
        cycle_phases::all_in_heap(c, buffers),
    ensures
        only_garbage_gone(
            c.heap,
            gc_work::collect_pool(c, s, buffers, vec_index, stats).s,
            base,
        ),
{
    let m = marked_pool(c, s, buffers, vec_index, stats);
    let w = cycle_phases::carry(m.0, stats.objects_in_scan, stats.objects_in_scan_black);
    pool_is_ready_to_scan(c, s, buffers, vec_index, stats, base);
    only_garbage_gone_after_mark(c, w, m.1, stats.objects_in_collect, base);
}

/// The collection of all pools reclaims only garbage, also where a cycle spans
/// pools.
pub proof fn full_collection_reclaims_only_garbage(
    lxr: Lxr,
    heap: Heap,
    d: (Seq<Seq<ObjectReference>>, Seq<Seq<ObjectReference>>, Seq<Seq<ObjectReference>>),
    stats: CycleCollectorStats,
    base: spec_fn(usize) -> nat,
)
    requires
        lxr.curr_vec < 3,
        ready(lxr.snapshot(heap), gc_work::unreported(lxr.cycle_state()), base),
        cycle_phases::all_in_heap(lxr.snapshot(heap), d.0),
        cycle_phases::all_in_heap(lxr.snapshot(heap), d.1),
        cycle_phases::all_in_heap(lxr.snapshot(heap), d.2),
    ensures
        only_garbage_gone(
            heap,
            gc_work::collect_all_pools(lxr, heap, d, stats).s,
            base,
        ),
{
    let c = lxr.snapshot(heap);
    let m = marked_all_pools(lxr, heap, d, stats);
    let w = cycle_phases::carry(m.0, stats.objects_in_scan, stats.objects_in_scan_black);
    all_pools_are_ready_to_scan(lxr, heap, d, stats, base);
    only_garbage_gone_after_mark(c, w, m.1, stats.objects_in_collect, base);
}

/// The collection of one pool reclaims every object that its scan phase left
/// white.
pub proof fn pool_collection_reclaims_what_is_white(
    c: Snapshot,
    s: CycleState,
    buffers: Seq<Seq<ObjectReference>>,
    vec_index: u8,
    stats: CycleCollectorStats,
    base: spec_fn(usize) -> nat,
    o: ObjectReference,
)
    requires
        ready(c, s, base),
        cycle_phases::all_in_heap(c, buffers),
        c.heap.contains(o),
        scanned(c, marked_pool(c, s, buffers, vec_index, stats), stats).color_of(o) == WHITE,
    ensures
        gc_work::collect_pool(c, s, buffers, vec_index, stats).s.freed.contains(o.addr),
{
    let m = marked_pool(c, s, buffers, vec_index, stats);
    let w = cycle_phases::carry(m.0, stats.objects_in_scan, stats.objects_in_scan_black);
    pool_is_ready_to_scan(c, s, buffers, vec_index, stats, base);
    only_garbage_gone_after_mark(c, w, m.1, stats.objects_in_collect, base);
}

/// The collection of all pools reclaims every object that its scan phase left
/// white.
pub proof fn full_collection_reclaims_what_is_white(
    lxr: Lxr,
    heap: Heap,
    d: (Seq<Seq<ObjectReference>>, Seq<Seq<ObjectReference>>, Seq<Seq<ObjectReference>>),
    stats: CycleCollectorStats,
    base: spec_fn(usize) -> nat,
    o: ObjectReference,
)
    requires
        lxr.curr_vec < 3,
        ready(lxr.snapshot(heap), gc_work::unreported(lxr.cycle_state()), base),
        cycle_phases::all_in_heap(lxr.snapshot(heap), d.0),
        cycle_phases::all_in_heap(lxr.snapshot(heap), d.1),
        cycle_phases::all_in_heap(lxr.snapshot(heap), d.2),
        heap.contains(o),
        scanned(
            lxr.snapshot(heap),
            marked_all_pools(lxr, heap, d, stats),
            stats,
        ).color_of(o) == WHITE,
    ensures
        gc_work::collect_all_pools(lxr, heap, d, stats).s.freed.contains(o.addr),
{
    let c = lxr.snapshot(heap);
    let m = marked_all_pools(lxr, heap, d, stats);
    let w = cycle_phases::carry(m.0, stats.objects_in_scan, stats.objects_in_scan_black);
    all_pools_are_ready_to_scan(lxr, heap, d, stats, base);
    only_garbage_gone_after_mark(c, w, m.1, stats.objects_in_collect, base);
}

/// Garbage into which trial deletion went turns white.
proof fn deleted_garbage_turns_white(
    c: Snapshot,
    s: CycleState,
    marked: (CycleState, Seq<ObjectReference>),
    stats: CycleCollectorStats,
    base: spec_fn(usize) -> nat,
    z: spec_fn(usize) -> bool,
    o: ObjectReference,
)
    requires
        c.wf(),
        ready_to_scan(c, marked, base),
        cycle_complete::garbage(c, s, base, z),
        cycle_complete::deleting(c.heap, z, s.cand, marked.0, Seq::empty()),
        cycle_complete::all_found(c.heap, z, s.cand),
        forall|x: ObjectReference| #[trigger]
            c.heap.contains(x) && z(x.granule()) ==> marked.0.cand[x.granule()] == 0,
        c.heap.contains(o),
        z(o.granule()),
    ensures
        scanned(c, marked, stats).color_of(o) == WHITE,
{
    let (t, xs) = marked;
    let w = cycle_phases::carry(t, stats.objects_in_scan, stats.objects_in_scan_black);
    let f = cycle_phases::scan_each(c, w, xs);
    assert forall|x: ObjectReference| #[trigger]
        c.heap.contains(x) && z(x.granule()) implies !t.is_black(x) by {
        cycle_complete::everything_is_deleted(c.heap, z, s.cand, t, x);
    }
    assert(cycle_laws::whites_settled(t, Seq::empty())) by {
        assert forall|g: usize|
            #![trigger t.color[g]]
            t.color[g] == 3 && !cycle_laws::on_stack(Seq::empty(), g) implies t.counts.count(g)
            <= 1 by {}
    }
    cycle_complete::scan_each_stays_outside(c, w, xs, base, z);
    cycle_grey::scan_leaves_nothing_grey(c, w, xs, o);
    let all = Map::<usize, u8>::total(|g: usize| 0u8);
    let any = |g: usize| true;
    assert forall|g: usize| #[trigger] t.color[g] <= 3 by {
        assert(t.color[g] <= 2);
    }
    scan_each_whitens_within(c, w, xs, all, any);
    assert(f.s.color[o.granule()] <= 3);
    assert(!f.s.is_black(o));
}

/// The collection of one pool reclaims the garbage that its candidates reach.
///
/// The objects in `z` have neither a reference from outside nor a strong one, no
/// logged slot, and are referred to by objects in `z` only. Each is a candidate
/// of the pool or none, and can be reached inside `z` from a candidate. Then the
/// collection reclaims all of them.
pub proof fn pool_collection_reclaims_garbage(
    c: Snapshot,
    s: CycleState,
    buffers: Seq<Seq<ObjectReference>>,
    vec_index: u8,
    stats: CycleCollectorStats,
    base: spec_fn(usize) -> nat,
    z: spec_fn(usize) -> bool,
    o: ObjectReference,
)
    requires
        ready(c, s, base),
        cycle_phases::all_in_heap(c, buffers),
        cycle_complete::garbage(c, s, base, z),
        cycle_complete::all_found(c.heap, z, s.cand),
        forall|x: ObjectReference| #[trigger]
            c.heap.contains(x) && z(x.granule()) ==> s.cand[x.granule()] == 0
                || s.cand[x.granule()] == vec_index && buffers.flatten().contains(x),
        c.heap.contains(o),
        z(o.granule()),
    ensures
        gc_work::collect_pool(c, s, buffers, vec_index, stats).s.freed.contains(o.addr),
{
    let m = marked_pool(c, s, buffers, vec_index, stats);
    pool_is_ready_to_scan(c, s, buffers, vec_index, stats, base);
    cycle_complete::deleting_begins(c, s, z);
    cycle_complete::pool_is_found(c, vec_index, s, buffers, stats.objects_in_mark, z, s.cand);
    deleted_garbage_turns_white(c, s, m, stats, base, z, o);
    pool_collection_reclaims_what_is_white(c, s, buffers, vec_index, stats, base, o);
}

/// Whether `x` is no candidate, or one of the pool whose tag it carries.
pub open spec fn listed(
    curr: u8,
    d: (Seq<Seq<ObjectReference>>, Seq<Seq<ObjectReference>>, Seq<Seq<ObjectReference>>),
    tag: u8,
    x: ObjectReference,
) -> bool {
    ||| tag == 0
    ||| tag == gc_work::visited_pool(curr, 0) + 1 && d.0.flatten().contains(x)
    ||| tag == gc_work::visited_pool(curr, 1) + 1 && d.1.flatten().contains(x)
    ||| tag == gc_work::visited_pool(curr, 2) + 1 && d.2.flatten().contains(x)
}

/// The collection of all pools reclaims the garbage that candidates of any pool
/// reach, also where it spans pools.
///
/// The objects in `z` have neither a reference from outside nor a strong one, no
/// logged slot, and are referred to by objects in `z` only. Each is no candidate
/// or one of the pool whose tag it carries, and can be reached inside `z` from a
/// candidate. Then the collection reclaims all of them.
pub proof fn full_collection_reclaims_garbage(
    lxr: Lxr,
    heap: Heap,
    d: (Seq<Seq<ObjectReference>>, Seq<Seq<ObjectReference>>, Seq<Seq<ObjectReference>>),
    stats: CycleCollectorStats,
    base: spec_fn(usize) -> nat,
    z: spec_fn(usize) -> bool,
    o: ObjectReference,
)
    requires
        lxr.curr_vec < 3,
        ready(lxr.snapshot(heap), gc_work::unreported(lxr.cycle_state()), base),
        cycle_phases::all_in_heap(lxr.snapshot(heap), d.0),
        cycle_phases::all_in_heap(lxr.snapshot(heap), d.1),
        cycle_phases::all_in_heap(lxr.snapshot(heap), d.2),
        cycle_complete::garbage(lxr.snapshot(heap), lxr.cycle_state(), base, z),
        cycle_complete::all_found(heap, z, lxr.cycle_state().cand),
        forall|x: ObjectReference| #[trigger]
            heap.contains(x) && z(x.granule()) ==> listed(
                lxr.curr_vec,
                d,
                lxr.cycle_state().cand[x.granule()],
                x,
            ),
        heap.contains(o),
        z(o.granule()),
    ensures
        gc_work::collect_all_pools(lxr, heap, d, stats).s.freed.contains(o.addr),
{
    let c = lxr.snapshot(heap);
    let s = gc_work::unreported(lxr.cycle_state());
    all_pools_are_ready_to_scan(lxr, heap, d, stats, base);
    let m = marked_all_pools(lxr, heap, d, stats);
    assert({
        &&& cycle_complete::deleting(heap, z, s.cand, m.0, Seq::empty())
        &&& forall|x: ObjectReference| #[trigger]
            heap.contains(x) && z(x.granule()) ==> m.0.cand[x.granule()] == 0
    }) by {
        all_pools_are_found(lxr.curr_vec, c, s, d, stats.objects_in_mark, z);
    }
    assert(scanned(c, m, stats).color_of(o) == WHITE) by {
        assert(cycle_complete::garbage(c, s, base, z));
        deleted_garbage_turns_white(c, s, m, stats, base, z, o);
    }
    full_collection_reclaims_what_is_white(lxr, heap, d, stats, base, o);
}

/// The mark phase over all pools keeps what it has to keep of the objects in
/// `z`, and leaves none of them a candidate.
proof fn all_pools_are_found(
    curr: u8,
    c: Snapshot,
    s: CycleState,
    d: (Seq<Seq<ObjectReference>>, Seq<Seq<ObjectReference>>, Seq<Seq<ObjectReference>>),
    visited: usize,
    z: spec_fn(usize) -> bool,
)
    requires
        c.wf(),
        curr < 3,
        cycle_phases::all_in_heap(c, d.0),
        cycle_phases::all_in_heap(c, d.1),
        cycle_phases::all_in_heap(c, d.2),
        cycle_soundness::all_black(s.color),
        cycle_complete::open_to_deletion(c, z),
        forall|x: ObjectReference| #[trigger]
            c.heap.contains(x) && z(x.granule()) ==> s.strong[x.granule()] == 0 && listed(
                curr,
                d,
                s.cand[x.granule()],
                x,
            ),
    ensures
        cycle_complete::deleting(
            c.heap,
            z,
            s.cand,
            gc_work::mark_rounds(curr, c, s, d, visited).2.s,
            Seq::empty(),
        ),
        forall|x: ObjectReference| #[trigger]
            c.heap.contains(x) && z(x.granule()) ==> gc_work::mark_rounds(
                curr,
                c,
                s,
                d,
                visited,
            ).2.s.cand[x.granule()] == 0,
{
    let m0 = gc_work::mark_round_of(curr, c, 0, s, d.0, visited);
    let m1 = gc_work::mark_round_of(curr, c, 1, m0.s, d.1, m0.visited);
    let m2 = gc_work::mark_round_of(curr, c, 2, m1.s, d.2, m1.visited);
    cycle_complete::deleting_begins(c, s, z);
    round_is_found(curr, c, 0, s, d.0, visited, z, s.cand);
    round_is_found(curr, c, 1, m0.s, d.1, m0.visited, z, s.cand);
    round_is_found(curr, c, 2, m1.s, d.2, m1.visited, z, s.cand);
}

/// One round of marking keeps what it has to keep of the objects in `z`, and
/// takes the tag of its pool from each that has it.
proof fn round_is_found(
    curr: u8,
    c: Snapshot,
    i: int,
    s: CycleState,
    buffers: Seq<Seq<ObjectReference>>,
    visited: usize,
    z: spec_fn(usize) -> bool,
    tags: Map<usize, u8>,
)
    requires
        c.wf(),
        curr < 3,
        0 <= i < 3,
        cycle_phases::all_in_heap(c, buffers),
        cycle_complete::open_to_deletion(c, z),
        cycle_complete::deleting(c.heap, z, tags, s, Seq::empty()),
        forall|x: ObjectReference| #[trigger]
            c.heap.contains(x) && z(x.granule()) && s.cand[x.granule()]
                == gc_work::visited_pool(curr, i) + 1 ==> buffers.flatten().contains(x),
    ensures
        ({
            let m = gc_work::mark_round_of(curr, c, i, s, buffers, visited);
            &&& cycle_complete::deleting(c.heap, z, tags, m.s, Seq::empty())
            &&& forall|x: ObjectReference| #[trigger]
                c.heap.contains(x) && z(x.granule()) ==> {
                    let t = m.s.cand[x.granule()];
                    &&& t == 0 || t == s.cand[x.granule()]
                    &&& t != gc_work::visited_pool(curr, i) + 1
                }
        }),
{
    let d = gc_work::round_snapshot(c, curr, i);
    assert(cycle_phases::all_in_heap(d, buffers));
    assert(cycle_complete::open_to_deletion(d, z)) by {
        assert forall|o: ObjectReference| #[trigger]
            d.heap.contains(o) && z(o.granule()) implies !d.has_logged_slot(o) by {
            assert(!c.has_logged_slot(o));
        }
    }
    cycle_complete::pool_is_found(
        d,
        (gc_work::visited_pool(curr, i) + 1) as u8,
        s,
        buffers,
        visited,
        z,
        tags,
    );
}

/// One round of marking reclaims nothing.
proof fn round_reclaims_nothing(
    curr: u8,
    c: Snapshot,
    i: int,
    s: CycleState,
    buffers: Seq<Seq<ObjectReference>>,
    visited: usize,
)
    requires
        c.wf(),
        curr < 3,
        0 <= i < 3,
        cycle_phases::all_in_heap(c, buffers),
    ensures
        gc_work::mark_round_of(curr, c, i, s, buffers, visited).s.freed == s.freed,
{
    let d = gc_work::round_snapshot(c, curr, i);
    assert(cycle_phases::all_in_heap(d, buffers));
    mark_buffers_reclaims_nothing(
        d,
        (gc_work::visited_pool(curr, i) + 1) as u8,
        cycle_phases::buffers_from(s, buffers, visited),
    );
}

} // verus!
