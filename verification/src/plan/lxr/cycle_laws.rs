//! What holds of cycle collection as a whole.

use crate::plan::lxr::cycle_model;
use crate::plan::lxr::cycle_model::{CycleState, Snapshot, Walk};
use crate::plan::lxr::cycle_phases;
use crate::plan::lxr::overflow_rc_cache;
use crate::util::address::ObjectReference;
use crate::util::rc::{BLACK_IN_STACK, GREY, WHITE};
use crate::vm::heap::Heap;
use vstd::prelude::*;

verus! {

/// How many of `xs` are at granule `g`.
pub open spec fn occurrences(xs: Seq<ObjectReference>, g: usize) -> nat
    decreases xs.len(),
{
    if xs.len() == 0 {
        0
    } else {
        occurrences(xs.drop_last(), g) + (if xs.last().granule() == g {
            1nat
        } else {
            0nat
        })
    }
}

/// How many references to granule `g` the slots of the object at place `k` of
/// the heap hold.
pub open spec fn refs_from(heap: Heap, k: int, g: usize) -> nat {
    occurrences(cycle_model::refs(heap, heap.objects@[k].slots@), g)
}

/// How many references to granule `g` the first `n` objects of the heap hold
/// whose granule is in `p`.
pub open spec fn refs_from_some(
    heap: Heap,
    p: spec_fn(usize) -> bool,
    g: usize,
    n: nat,
) -> nat
    decreases n,
{
    if n == 0 {
        0
    } else {
        refs_from_some(heap, p, g, (n - 1) as nat) + (if p(
            heap.objects@[n - 1].object.granule(),
        ) {
            refs_from(heap, n - 1, g)
        } else {
            0nat
        })
    }
}

/// The granules that are black.
pub open spec fn black(color: Map<usize, u8>) -> spec_fn(usize) -> bool {
    |g: usize| color[g] <= 1
}

/// How many references to granule `g` black objects hold.
pub open spec fn black_refs(heap: Heap, color: Map<usize, u8>, g: usize) -> nat {
    refs_from_some(heap, black(color), g, heap.objects@.len())
}

/// How many references to granule `g` objects hold.
pub open spec fn all_refs(heap: Heap, g: usize) -> nat {
    refs_from_some(heap, |h: usize| true, g, heap.objects@.len())
}

/// Whether the count of every granule `g` is `base(g)` and one for each
/// reference that a black object holds.
///
/// Where every object is black, `base` is what the counts hold beyond the
/// references between objects: the bias of a live object, and its references
/// from outside the heap.
pub open spec fn accounts(heap: Heap, s: CycleState, base: spec_fn(usize) -> nat) -> bool {
    &&& s.counts.wf()
    &&& forall|g: usize|
        #![trigger s.counts.count(g)]
        s.counts.count(g) == base(g) + black_refs(heap, s.color, g)
}

/// Whether the counts stay in range however the references are counted.
pub open spec fn in_range(heap: Heap, base: spec_fn(usize) -> nat) -> bool {
    forall|g: usize| #![trigger base(g)] base(g) + all_refs(heap, g) < 255 + u32::MAX
}

/// Whether every object that is not black has every slot unlogged.
pub open spec fn rest_unlogged(c: Snapshot, color: Map<usize, u8>) -> bool {
    forall|k: int, j: int|
        #![trigger c.heap.objects@[k].slots@[j]]
        0 <= k < c.heap.objects@.len() && 0 <= j < c.heap.objects@[k].slots@.len()
            && color[c.heap.objects@[k].object.granule()] >= 2
            ==> c.unlog[c.heap.objects@[k].slots@[j]] == 1
}

/// More objects hold at least as many references.
proof fn refs_from_some_monotone(
    heap: Heap,
    p: spec_fn(usize) -> bool,
    q: spec_fn(usize) -> bool,
    g: usize,
    n: nat,
)
    requires
        forall|h: usize| #[trigger] p(h) ==> q(h),
    ensures
        refs_from_some(heap, p, g, n) <= refs_from_some(heap, q, g, n),
    decreases n,
{
    if n > 0 {
        refs_from_some_monotone(heap, p, q, g, (n - 1) as nat);
    }
}

/// Objects picked alike hold the same references.
pub proof fn refs_from_some_equal(
    heap: Heap,
    p: spec_fn(usize) -> bool,
    q: spec_fn(usize) -> bool,
    g: usize,
    n: nat,
)
    requires
        n <= heap.objects@.len(),
        forall|k: int|
            0 <= k < n ==> p(#[trigger] heap.objects@[k].object.granule()) == q(
                heap.objects@[k].object.granule(),
            ),
    ensures
        refs_from_some(heap, p, g, n) == refs_from_some(heap, q, g, n),
    decreases n,
{
    if n > 0 {
        refs_from_some_equal(heap, p, q, g, (n - 1) as nat);
    }
}

/// One object more holds its references more.
pub proof fn refs_from_some_add(
    heap: Heap,
    p: spec_fn(usize) -> bool,
    q: spec_fn(usize) -> bool,
    g: usize,
    n: nat,
    k: int,
)
    requires
        heap.wf(),
        n <= heap.objects@.len(),
        0 <= k < n,
        !p(heap.objects@[k].object.granule()),
        q(heap.objects@[k].object.granule()),
        forall|i: int|
            0 <= i < n && i != k ==> p(#[trigger] heap.objects@[i].object.granule()) == q(
                heap.objects@[i].object.granule(),
            ),
    ensures
        refs_from_some(heap, q, g, n) == refs_from_some(heap, p, g, n) + refs_from(heap, k, g),
    decreases n,
{
    if k < n - 1 {
        refs_from_some_add(heap, p, q, g, (n - 1) as nat, k);
    } else {
        refs_from_some_equal(heap, p, q, g, (n - 1) as nat);
    }
}

/// Blackening an object that was not black adds the references that it holds.
proof fn blackening_adds(
    heap: Heap,
    color: Map<usize, u8>,
    o: ObjectReference,
    v: u8,
    g: usize,
)
    requires
        heap.wf(),
        heap.contains(o),
        color[o.granule()] >= 2,
        v <= 1,
    ensures
        black_refs(heap, color.insert(o.granule(), v), g) == black_refs(heap, color, g)
            + refs_from(heap, heap.place(o), g),
{
    let new = color.insert(o.granule(), v);
    assert forall|i: int|
        0 <= i < heap.objects@.len() && i != heap.place(o) implies black(color)(
        #[trigger] heap.objects@[i].object.granule(),
    ) == black(new)(heap.objects@[i].object.granule()) by {
        assert(heap.objects@[i].object.granule() != o.granule());
    }
    refs_from_some_add(
        heap,
        black(color),
        black(new),
        g,
        heap.objects@.len(),
        heap.place(o),
    );
}

/// An object that stops being black takes the references that it holds away.
proof fn greying_takes(
    heap: Heap,
    color: Map<usize, u8>,
    o: ObjectReference,
    v: u8,
    g: usize,
)
    requires
        heap.wf(),
        heap.contains(o),
        color[o.granule()] <= 1,
        v >= 2,
    ensures
        black_refs(heap, color, g) == black_refs(heap, color.insert(o.granule(), v), g)
            + refs_from(heap, heap.place(o), g),
{
    let new = color.insert(o.granule(), v);
    assert forall|i: int|
        0 <= i < heap.objects@.len() && i != heap.place(o) implies black(new)(
        #[trigger] heap.objects@[i].object.granule(),
    ) == black(color)(heap.objects@[i].object.granule()) by {
        assert(heap.objects@[i].object.granule() != o.granule());
    }
    refs_from_some_add(
        heap,
        black(new),
        black(color),
        g,
        heap.objects@.len(),
        heap.place(o),
    );
}

/// Colours that agree on what is black count the same references.
pub proof fn same_black_refs(heap: Heap, color: Map<usize, u8>, new: Map<usize, u8>, g: usize)
    requires
        forall|h: usize| #[trigger] new[h] <= 1 <==> color[h] <= 1,
    ensures
        black_refs(heap, new, g) == black_refs(heap, color, g),
{
    assert forall|k: int| 0 <= k < heap.objects@.len() implies black(new)(
        #[trigger] heap.objects@[k].object.granule(),
    ) == black(color)(heap.objects@[k].object.granule()) by {
        let h = heap.objects@[k].object.granule();
        assert(new[h] <= 1 <==> color[h] <= 1);
    }
    refs_from_some_equal(heap, black(new), black(color), g, heap.objects@.len());
}

/// Black objects hold some of all references.
proof fn black_refs_at_most_all(heap: Heap, color: Map<usize, u8>, g: usize)
    ensures
        black_refs(heap, color, g) <= all_refs(heap, g),
{
    let all = |h: usize| true;
    refs_from_some_monotone(heap, black(color), all, g, heap.objects@.len());
}

/// Taking references away lowers each count by the references taken.
pub proof fn take_away_counts(s: CycleState, xs: Seq<ObjectReference>)
    requires
        s.counts.wf(),
        forall|g: usize| #[trigger] s.counts.count(g) >= occurrences(xs, g),
    ensures
        cycle_model::take_away(s, xs).counts.wf(),
        forall|g: usize| #[trigger]
            cycle_model::take_away(s, xs).counts.count(g) == s.counts.count(g) - occurrences(
                xs,
                g,
            ),
    decreases xs.len(),
{
    if xs.len() > 0 {
        let p = xs.drop_last();
        let x = xs.last();
        assert forall|g: usize| #[trigger] s.counts.count(g) >= occurrences(p, g) by {
            assert(s.counts.count(g) >= occurrences(xs, g));
        }
        take_away_counts(s, p);
        let t = cycle_model::take_away(s, p);
        overflow_rc_cache::dec_takes_one(t.counts, x.granule());
        assert(t.counts.count(x.granule()) == s.counts.count(x.granule()) - occurrences(
            p,
            x.granule(),
        ));
        assert(s.counts.count(x.granule()) >= occurrences(xs, x.granule()));
        assert forall|g: usize| #[trigger]
            cycle_model::take_away(s, xs).counts.count(g) == s.counts.count(g) - occurrences(
                xs,
                g,
            ) by {
            assert(t.counts.count(g) == s.counts.count(g) - occurrences(p, g));
        }
    }
}

/// Giving references back raises each count by the references given.
pub proof fn give_back_counts(s: CycleState, xs: Seq<ObjectReference>, tag: u8)
    requires
        s.counts.wf(),
        forall|g: usize| #[trigger]
            s.counts.count(g) + occurrences(xs, g) < 255 + u32::MAX,
    ensures
        cycle_model::give_back(s, xs, tag).counts.wf(),
        forall|g: usize| #[trigger]
            cycle_model::give_back(s, xs, tag).counts.count(g) == s.counts.count(g)
                + occurrences(xs, g),
    decreases xs.len(),
{
    if xs.len() > 0 {
        let p = xs.drop_last();
        let x = xs.last();
        let t = s.inc(x).tagged(x, tag);
        let u = if t.is_black(x) {
            t
        } else {
            t.strong_dec(x)
        };
        assert(s.counts.count(x.granule()) + occurrences(xs, x.granule()) < 255 + u32::MAX);
        overflow_rc_cache::inc_adds_one(s.counts, x.granule());
        assert forall|g: usize| #[trigger] u.counts.count(g) + occurrences(p, g) < 255
            + u32::MAX by {
            assert(s.counts.count(g) + occurrences(xs, g) < 255 + u32::MAX);
        }
        give_back_counts(u, p, tag);
        assert forall|g: usize| #[trigger]
            cycle_model::give_back(s, xs, tag).counts.count(g) == s.counts.count(g)
                + occurrences(xs, g) by {
            assert(cycle_model::give_back(u, p, tag).counts.count(g) == u.counts.count(g)
                + occurrences(p, g));
        }
    }
}

/// Restoring references raises each count by the references restored.
pub proof fn restore_counts(s: CycleState, xs: Seq<ObjectReference>)
    requires
        s.counts.wf(),
        forall|g: usize| #[trigger]
            s.counts.count(g) + occurrences(xs, g) < 255 + u32::MAX,
    ensures
        cycle_model::restore(s, xs).counts.wf(),
        forall|g: usize| #[trigger]
            cycle_model::restore(s, xs).counts.count(g) == s.counts.count(g) + occurrences(xs, g),
    decreases xs.len(),
{
    if xs.len() > 0 {
        let p = xs.drop_last();
        let x = xs.last();
        assert forall|g: usize| #[trigger] s.counts.count(g) + occurrences(p, g) < 255
            + u32::MAX by {
            assert(s.counts.count(g) + occurrences(xs, g) < 255 + u32::MAX);
        }
        restore_counts(s, p);
        let t = cycle_model::restore(s, p);
        assert(t.counts.count(x.granule()) == s.counts.count(x.granule()) + occurrences(
            p,
            x.granule(),
        ));
        assert(s.counts.count(x.granule()) + occurrences(xs, x.granule()) < 255 + u32::MAX);
        overflow_rc_cache::inc_adds_one(t.counts, x.granule());
        assert forall|g: usize| #[trigger]
            cycle_model::restore(s, xs).counts.count(g) == s.counts.count(g) + occurrences(
                xs,
                g,
            ) by {
            assert(t.counts.count(g) == s.counts.count(g) + occurrences(p, g));
        }
    }
}

/// The references up to the first logged slot are among all references.
pub proof fn prefix_occurrences(heap: Heap, slots: Seq<usize>, n: int, g: usize)
    requires
        0 <= n <= slots.len(),
    ensures
        occurrences(cycle_model::refs(heap, slots.take(n)), g) <= occurrences(
            cycle_model::refs(heap, slots),
            g,
        ),
    decreases slots.len(),
{
    if n == slots.len() {
        assert(slots.take(n) =~= slots);
    } else {
        prefix_occurrences(heap, slots.drop_last(), n, g);
        assert(slots.drop_last().take(n) =~= slots.take(n));
        let xs = cycle_model::refs(heap, slots.drop_last());
        if let Some(x) = heap.fields@[slots.last()] {
            assert(xs.push(x).drop_last() =~= xs);
        }
    }
}

/// What an object with unlogged slots referred to is what it refers to.
pub proof fn unlogged_refs_are_current(c: Snapshot, slots: Seq<usize>)
    requires
        forall|j: int| 0 <= j < slots.len() ==> c.unlog[#[trigger] slots[j]] == 1,
    ensures
        cycle_model::satb_refs(c, slots) == cycle_model::refs(c.heap, slots),
    decreases slots.len(),
{
    if slots.len() > 0 {
        assert(c.unlog[slots[slots.len() - 1]] == 1);
        unlogged_refs_are_current(c, slots.drop_last());
    }
}

/// A step of trial deletion gives an object that has a logged slot all its
/// references back: no count changes.
pub proof fn logged_object_keeps_counts(c: Snapshot, w: Walk)
    requires
        c.wf(),
        c.holds(w.stack),
        w.stack.len() > 0,
        cycle_model::markable(w.s, w.stack.last()),
        c.has_logged_slot(w.stack.last()),
        w.s.counts.wf(),
        forall|g: usize| #[trigger] w.s.counts.count(g) < 255 + u32::MAX,
        forall|g: usize| #[trigger]
            w.s.counts.count(g) >= occurrences(
                cycle_model::refs(c.heap, c.unlogged_slots(w.stack.last())),
                g,
            ),
    ensures
        cycle_model::mark_step(c, w).s.counts.wf(),
        forall|g: usize| #[trigger]
            cycle_model::mark_step(c, w).s.counts.count(g) == w.s.counts.count(g),
{
    let o = w.stack.last();
    let xs = cycle_model::refs(c.heap, c.unlogged_slots(o));
    let s1 = w.s.paint(o, GREY);
    assert forall|g: usize| #[trigger] s1.counts.count(g) >= occurrences(xs, g) by {
        assert(w.s.counts.count(g) >= occurrences(xs, g));
    }
    take_away_counts(s1, xs);
    let s2 = cycle_model::take_away(s1, xs).paint(o, BLACK_IN_STACK);
    assert forall|g: usize| #[trigger] s2.counts.count(g) + occurrences(xs, g) < 255
        + u32::MAX by {
        assert(cycle_model::take_away(s1, xs).counts.count(g) == s1.counts.count(g)
            - occurrences(xs, g));
        assert(w.s.counts.count(g) < 255 + u32::MAX);
    }
    give_back_counts(s2, xs, c.tag);
    assert forall|g: usize| #[trigger]
        cycle_model::mark_step(c, w).s.counts.count(g) == w.s.counts.count(g) by {
        let s3 = cycle_model::give_back(s2, xs, c.tag);
        assert(s3.counts.count(g) == s2.counts.count(g) + occurrences(xs, g));
        assert(cycle_model::take_away(s1, xs).counts.count(g) == s1.counts.count(g)
            - occurrences(xs, g));
    }
}

/// A step of trial deletion keeps the account: what an object that turns grey
/// refers to loses exactly the references that are no longer counted.
pub proof fn mark_step_keeps_accounts(c: Snapshot, w: Walk, base: spec_fn(usize) -> nat)
    requires
        c.wf(),
        c.holds(w.stack),
        w.stack.len() > 0,
        accounts(c.heap, w.s, base),
        in_range(c.heap, base),
        rest_unlogged(c, w.s.color),
    ensures
        accounts(c.heap, cycle_model::mark_step(c, w).s, base),
        rest_unlogged(c, cycle_model::mark_step(c, w).s.color),
{
    let o = w.stack.last();
    let v = cycle_model::mark_step(c, w);
    let h = c.heap;
    cycle_model::pop_in_heap(c, w.stack);
    if cycle_model::markable(w.s, o) {
        let n = cycle_model::first_logged(c.unlog, h.slots(o), 0);
        let xs = cycle_model::refs(h, c.unlogged_slots(o));
        let s1 = w.s.paint(o, GREY);
        cycle_model::first_logged_bounds(c.unlog, h.slots(o), 0);
        cycle_model::take_away_frame(s1, xs);
        assert forall|g: usize| #[trigger] w.s.counts.count(g) >= occurrences(xs, g) by {
            prefix_occurrences(h, h.slots(o), n, g);
            greying_takes(h, w.s.color, o, GREY, g);
        }
        if c.has_logged_slot(o) {
            cycle_model::give_back_frame(
                cycle_model::take_away(s1, xs).paint(o, BLACK_IN_STACK),
                xs,
                c.tag,
            );
            assert forall|g: usize| #[trigger] w.s.counts.count(g) < 255 + u32::MAX by {
                black_refs_at_most_all(h, w.s.color, g);
                assert(base(g) + all_refs(h, g) < 255 + u32::MAX);
            }
            logged_object_keeps_counts(c, w);
            assert forall|g: usize| #[trigger] v.s.counts.count(g) == base(g) + black_refs(
                h,
                v.s.color,
                g,
            ) by {
                same_black_refs(h, w.s.color, v.s.color, g);
                assert(v.s.counts.count(g) == w.s.counts.count(g));
            }
        } else {
            assert(c.unlogged_slots(o) =~= h.slots(o));
            assert forall|g: usize| #[trigger] s1.counts.count(g) >= occurrences(xs, g) by {
                assert(w.s.counts.count(g) >= occurrences(xs, g));
            }
            take_away_counts(s1, xs);
            assert forall|g: usize| #[trigger] v.s.counts.count(g) == base(g) + black_refs(
                h,
                v.s.color,
                g,
            ) by {
                greying_takes(h, w.s.color, o, GREY, g);
                assert(cycle_model::take_away(s1, xs).counts.count(g) == s1.counts.count(g)
                    - occurrences(xs, g));
                assert(w.s.counts.count(g) == base(g) + black_refs(h, w.s.color, g));
            }
            cycle_phases::no_logged_slot(c.unlog, h.slots(o), 0);
            assert forall|k: int, j: int|
                #![trigger h.objects@[k].slots@[j]]
                0 <= k < h.objects@.len() && 0 <= j < h.objects@[k].slots@.len()
                    && v.s.color[h.objects@[k].object.granule()] >= 2 implies c.unlog[h.objects@[k].slots@[j]]
                == 1 by {
                if h.objects@[k].object.granule() == o.granule() {
                    assert(k == h.place(o));
                    assert(c.unlog[h.slots(o)[j]] != 0);
                } else {
                    assert(w.s.color[h.objects@[k].object.granule()] >= 2);
                }
            }
        }
    } else {
        assert forall|g: usize| #[trigger] v.s.counts.count(g) == base(g) + black_refs(
            h,
            v.s.color,
            g,
        ) by {
            same_black_refs(h, w.s.color, v.s.color, g);
            assert(w.s.counts.count(g) == base(g) + black_refs(h, w.s.color, g));
        }
    }
}

/// Trial deletion keeps the account: when it ends, every count is what it was,
/// less the references that grey objects hold.
pub proof fn mark_keeps_accounts(c: Snapshot, w: Walk, base: spec_fn(usize) -> nat)
    requires
        c.wf(),
        c.holds(w.stack),
        accounts(c.heap, w.s, base),
        in_range(c.heap, base),
        rest_unlogged(c, w.s.color),
    ensures
        accounts(c.heap, cycle_model::mark_all(c, w).s, base),
        rest_unlogged(c, cycle_model::mark_all(c, w).s.color),
    decreases
            cycle_model::count_all(c.heap, cycle_model::unmarked(w.s)),
            w.stack.len(),
{
    if w.stack.len() > 0 {
        cycle_model::mark_step_progress(c, w);
        mark_step_keeps_accounts(c, w, base);
        mark_keeps_accounts(c, cycle_model::mark_step(c, w), base);
    }
}

/// Whether an object at granule `g` is on the stack.
pub open spec fn on_stack(stack: Seq<ObjectReference>, g: usize) -> bool {
    exists|i: int| 0 <= i < stack.len() && (#[trigger] stack[i]).granule() == g
}

/// Whether every white granule that is not on the stack has no count beyond the
/// bias.
pub open spec fn whites_settled(s: CycleState, stack: Seq<ObjectReference>) -> bool {
    forall|g: usize|
        #![trigger s.color[g]]
        s.color[g] == 3 && !on_stack(stack, g) ==> s.counts.count(g) <= 1
}

/// An object that gains a reference and is not being restored is put on the
/// stack.
proof fn gaining_objects_are_pushed(color: Map<usize, u8>, xs: Seq<ObjectReference>, g: usize)
    requires
        occurrences(xs, g) > 0,
        color[g] != 1,
    ensures
        on_stack(cycle_model::not_in_stack(color, xs), g),
    decreases xs.len(),
{
    let p = xs.drop_last();
    let ys = cycle_model::not_in_stack(color, xs);
    if xs.last().granule() == g {
        assert(ys[ys.len() - 1].granule() == g);
    } else {
        gaining_objects_are_pushed(color, p, g);
        let zs = cycle_model::not_in_stack(color, p);
        let i = choose|i: int| 0 <= i < zs.len() && (#[trigger] zs[i]).granule() == g;
        assert(ys[i].granule() == g);
    }
}

/// A step of restoring keeps the account: an object that turns black gets
/// exactly the references counted again that it holds. It leaves no white
/// object with a count beyond the bias but on the stack.
pub proof fn scan_black_step_keeps_accounts(c: Snapshot, w: Walk, base: spec_fn(usize) -> nat)
    requires
        c.wf(),
        c.holds(w.stack),
        w.stack.len() > 0,
        accounts(c.heap, w.s, base),
        in_range(c.heap, base),
        rest_unlogged(c, w.s.color),
        whites_settled(w.s, w.stack),
    ensures
        accounts(c.heap, cycle_model::scan_black_step(c, w).s, base),
        rest_unlogged(c, cycle_model::scan_black_step(c, w).s.color),
        whites_settled(
            cycle_model::scan_black_step(c, w).s,
            cycle_model::scan_black_step(c, w).stack,
        ),
{
    let o = w.stack.last();
    let v = cycle_model::scan_black_step(c, w);
    let h = c.heap;
    cycle_model::pop_in_heap(c, w.stack);
    if w.s.is_black(o) {
        assert forall|g: usize| #[trigger] v.s.counts.count(g) == base(g) + black_refs(
            h,
            v.s.color,
            g,
        ) by {
            same_black_refs(h, w.s.color, v.s.color, g);
            assert(w.s.counts.count(g) == base(g) + black_refs(h, w.s.color, g));
        }
        assert forall|g: usize|
            #![trigger v.s.color[g]]
            v.s.color[g] == 3 && !on_stack(v.stack, g) implies v.s.counts.count(g) <= 1 by {
            assert(w.s.color[g] == 3);
            if on_stack(w.stack, g) {
                let i = choose|i: int|
                    0 <= i < w.stack.len() && (#[trigger] w.stack[i]).granule() == g;
                assert(i < w.stack.len() - 1);
                assert(v.stack[i].granule() == g);
            }
        }
    } else {
        let t = w.s.paint(o, BLACK_IN_STACK).with_strong(
            o,
            cycle_model::restored_strong(w.s.counts.rc[o.granule()]),
        );
        let xs = cycle_model::satb_refs(c, h.slots(o));
        let k = h.place(o);
        assert forall|j: int| 0 <= j < h.slots(o).len() implies c.unlog[#[trigger] h.slots(o)[j]]
            == 1 by {
            assert(h.objects@[k].slots@[j] == h.slots(o)[j]);
            assert(h.objects@[k].object == o);
        }
        unlogged_refs_are_current(c, h.slots(o));
        cycle_model::restore_frame(t, xs);
        assert forall|g: usize| #[trigger] t.counts.count(g) + occurrences(xs, g) < 255
            + u32::MAX by {
            blackening_adds(h, w.s.color, o, BLACK_IN_STACK, g);
            black_refs_at_most_all(h, v.s.color, g);
            assert(w.s.counts.count(g) == base(g) + black_refs(h, w.s.color, g));
            assert(base(g) + all_refs(h, g) < 255 + u32::MAX);
        }
        restore_counts(t, xs);
        assert forall|g: usize| #[trigger] v.s.counts.count(g) == base(g) + black_refs(
            h,
            v.s.color,
            g,
        ) by {
            blackening_adds(h, w.s.color, o, BLACK_IN_STACK, g);
            assert(cycle_model::restore(t, xs).counts.count(g) == t.counts.count(g)
                + occurrences(xs, g));
            assert(w.s.counts.count(g) == base(g) + black_refs(h, w.s.color, g));
        }
        assert forall|g: usize|
            #![trigger v.s.color[g]]
            v.s.color[g] == 3 && !on_stack(v.stack, g) implies v.s.counts.count(g) <= 1 by {
            assert(w.s.color[g] == 3);
            let ys = cycle_model::not_in_stack(t.color, xs);
            if on_stack(w.stack, g) {
                let i = choose|i: int|
                    0 <= i < w.stack.len() && (#[trigger] w.stack[i]).granule() == g;
                assert(v.stack[i].granule() == g);
            }
            if occurrences(xs, g) > 0 {
                gaining_objects_are_pushed(t.color, xs, g);
                let i = choose|i: int| 0 <= i < ys.len() && (#[trigger] ys[i]).granule() == g;
                assert(v.stack[w.stack.len() + i].granule() == g);
            }
            assert(cycle_model::restore(t, xs).counts.count(g) == t.counts.count(g)
                + occurrences(xs, g));
        }
    }
}

/// Restoring keeps the account, and leaves no white object with a count beyond
/// the bias.
pub proof fn scan_black_keeps_accounts(c: Snapshot, w: Walk, base: spec_fn(usize) -> nat)
    requires
        c.wf(),
        c.holds(w.stack),
        c.covers(w.s.color),
        accounts(c.heap, w.s, base),
        in_range(c.heap, base),
        rest_unlogged(c, w.s.color),
        whites_settled(w.s, w.stack),
    ensures
        accounts(c.heap, cycle_model::scan_black_all(c, w).s, base),
        rest_unlogged(c, cycle_model::scan_black_all(c, w).s.color),
        whites_settled(cycle_model::scan_black_all(c, w).s, Seq::empty()),
    decreases
            cycle_model::count_all(c.heap, cycle_model::not_black(w.s)),
            w.stack.len(),
{
    if w.stack.len() > 0 {
        cycle_model::scan_black_step_progress(c, w);
        scan_black_step_keeps_accounts(c, w, base);
        scan_black_keeps_accounts(c, cycle_model::scan_black_step(c, w), base);
    } else {
        assert(w.stack =~= Seq::empty());
    }
}

/// A step of the scan keeps the account, and leaves no white object with a count
/// beyond the bias.
pub proof fn scan_step_keeps_accounts(c: Snapshot, w: Walk, base: spec_fn(usize) -> nat)
    requires
        c.wf(),
        c.holds(w.stack),
        w.stack.len() > 0,
        c.covers(w.s.color),
        accounts(c.heap, w.s, base),
        in_range(c.heap, base),
        rest_unlogged(c, w.s.color),
        whites_settled(w.s, Seq::empty()),
    ensures
        accounts(c.heap, cycle_model::scan_step(c, w).s, base),
        rest_unlogged(c, cycle_model::scan_step(c, w).s.color),
        whites_settled(cycle_model::scan_step(c, w).s, Seq::empty()),
{
    let o = w.stack.last();
    let v = cycle_model::scan_step(c, w);
    let h = c.heap;
    cycle_model::pop_in_heap(c, w.stack);
    if w.s.color_of(o) == GREY {
        if w.s.counts.rc[o.granule()] > 1 {
            let start = cycle_model::walk_from(w.s, o, w.nested, 0);
            assert(c.holds(start.stack));
            assert(whites_settled(start.s, start.stack)) by {
                assert forall|g: usize|
                    #![trigger start.s.color[g]]
                    start.s.color[g] == 3 && !on_stack(start.stack, g) implies start.s.counts.count(
                    g,
                ) <= 1 by {
                    assert(w.s.color[g] == 3);
                    assert(!on_stack(Seq::empty(), g));
                }
            }
            scan_black_keeps_accounts(c, start, base);
        } else {
            assert forall|g: usize| #[trigger] v.s.counts.count(g) == base(g) + black_refs(
                h,
                v.s.color,
                g,
            ) by {
                same_black_refs(h, w.s.color, v.s.color, g);
                assert(w.s.counts.count(g) == base(g) + black_refs(h, w.s.color, g));
            }
            assert forall|g: usize|
                #![trigger v.s.color[g]]
                v.s.color[g] == 3 && !on_stack(Seq::empty(), g) implies v.s.counts.count(g)
                <= 1 by {
                if g != o.granule() {
                    assert(w.s.color[g] == 3);
                }
            }
        }
    }
}

/// The scan keeps the account, and every object that it leaves white has no
/// count beyond the bias.
pub proof fn scan_keeps_accounts(c: Snapshot, w: Walk, base: spec_fn(usize) -> nat)
    requires
        c.wf(),
        c.holds(w.stack),
        c.covers(w.s.color),
        accounts(c.heap, w.s, base),
        in_range(c.heap, base),
        rest_unlogged(c, w.s.color),
        whites_settled(w.s, Seq::empty()),
    ensures
        accounts(c.heap, cycle_model::scan_all(c, w).s, base),
        rest_unlogged(c, cycle_model::scan_all(c, w).s.color),
        whites_settled(cycle_model::scan_all(c, w).s, Seq::empty()),
    decreases cycle_model::count_all(c.heap, cycle_model::grey(w.s)), w.stack.len(),
{
    if w.stack.len() > 0 {
        cycle_model::scan_step_progress(c, w);
        scan_step_keeps_accounts(c, w, base);
        scan_keeps_accounts(c, cycle_model::scan_step(c, w), base);
    }
}

/// No reference that is counted: no object holds one.
pub proof fn no_refs_from_any(heap: Heap, p: spec_fn(usize) -> bool, g: usize, n: nat, k: int)
    requires
        n <= heap.objects@.len(),
        0 <= k < n,
        p(heap.objects@[k].object.granule()),
        refs_from_some(heap, p, g, n) == 0,
    ensures
        refs_from(heap, k, g) == 0,
    decreases n,
{
    if k < n - 1 {
        no_refs_from_any(heap, p, g, (n - 1) as nat, k);
    }
}

/// A white object is referred to neither from outside nor from a black object:
/// its count is the bias, and no black object holds a reference to it.
pub proof fn white_objects_are_not_referenced(
    heap: Heap,
    s: CycleState,
    base: spec_fn(usize) -> nat,
    o: ObjectReference,
    k: int,
)
    requires
        heap.wf(),
        heap.contains(o),
        accounts(heap, s, base),
        whites_settled(s, Seq::empty()),
        base(o.granule()) >= 1,
        s.color_of(o) == WHITE,
        0 <= k < heap.objects@.len(),
        s.is_black(heap.objects@[k].object),
    ensures
        s.counts.count(o.granule()) == 1,
        base(o.granule()) == 1,
        refs_from(heap, k, o.granule()) == 0,
{
    let g = o.granule();
    assert(!on_stack(Seq::empty(), g));
    assert(s.color[g] == 3);
    assert(s.counts.count(g) == base(g) + black_refs(heap, s.color, g));
    no_refs_from_any(heap, black(s.color), g, heap.objects@.len(), k);
}

} // verus!
