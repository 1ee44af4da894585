//! How reclaimed objects are accounted for.

use crate::plan::immix::Pause;
use crate::plan::lxr::buffer;
use crate::plan::lxr::cycle_model;
use crate::plan::lxr::cycle_model::{CycleState, DeadStats, Snapshot, Walk};
use crate::plan::lxr::cycle_phases;
use crate::plan::lxr::cycle_phases::BufferWalk;
use crate::plan::lxr::cycle_stats::CycleCollectorStats;
use crate::plan::lxr::gc_work;
use crate::plan::lxr::gc_work::CycleCollector;
use crate::plan::lxr::global::Lxr;
use crate::util::address::ObjectReference;
use crate::util::rc::{BLACK_IN_STACK, BLACK_OUT_OF_STACK, GREY};
use crate::util::rc_laws;
use crate::vm::heap::Heap;
use vstd::prelude::*;

verus! {

/// The object at an address.
pub open spec fn object_at(a: usize) -> ObjectReference {
    ObjectReference { addr: a }
}

/// Those of the addresses at which a large object is.
pub open spec fn large_ones(heap: Heap, addrs: Seq<usize>) -> Seq<usize> {
    addrs.filter(|a: usize| !heap.info(object_at(a)).in_immix_space)
}

/// Those of the addresses at which an object of the block-structured space is.
pub open spec fn small_ones(heap: Heap, addrs: Seq<usize>) -> Seq<usize> {
    addrs.filter(|a: usize| heap.info(object_at(a)).in_immix_space)
}

/// The bytes of the objects at the addresses.
pub open spec fn bytes(heap: Heap, addrs: Seq<usize>) -> nat
    decreases addrs.len(),
{
    if addrs.len() == 0 {
        0
    } else {
        bytes(heap, addrs.drop_last()) + heap.info(object_at(addrs.last())).size as nat
    }
}

/// Whether a counter that wraps went up by `n`.
pub open spec fn went_up(old: usize, new: usize, n: nat) -> bool {
    new == (old + n) % (usize::MAX + 1)
}

/// Whether the numbers went up by the objects at the addresses and their bytes,
/// and those of large objects by the large ones among them.
pub open spec fn numbers_went_up(
    heap: Heap,
    s: DeadStats,
    f: DeadStats,
    addrs: Seq<usize>,
) -> bool {
    let large = large_ones(heap, addrs);
    &&& went_up(s.dead_mature_objects, f.dead_mature_objects, addrs.len())
    &&& went_up(s.dead_mature_volume, f.dead_mature_volume, bytes(heap, addrs))
    &&& went_up(s.dead_mature_rc_objects, f.dead_mature_rc_objects, addrs.len())
    &&& went_up(s.dead_mature_rc_volume, f.dead_mature_rc_volume, bytes(heap, addrs))
    &&& went_up(s.dead_mature_los_objects, f.dead_mature_los_objects, large.len())
    &&& went_up(s.dead_mature_los_volume, f.dead_mature_los_volume, bytes(heap, large))
    &&& went_up(s.dead_mature_rc_los_objects, f.dead_mature_rc_los_objects, large.len())
    &&& went_up(s.dead_mature_rc_los_volume, f.dead_mature_rc_los_volume, bytes(heap, large))
}

/// Whether line `l` lies inside one of the objects at the addresses that is not
/// large and is longer than a line.
pub open spec fn line_of_one(heap: Heap, addrs: Seq<usize>, l: usize) -> bool {
    exists|i: int|
        #![trigger addrs[i]]
        0 <= i < addrs.len() && {
            let info = heap.info(object_at(addrs[i]));
            info.in_immix_space && info.size > 256 && rc_laws::inside_object(
                addrs[i],
                info.size,
                l as int,
            )
        }
}

/// Whether granule `g` is that of one of the objects at the addresses.
pub open spec fn granule_of_one(addrs: Seq<usize>, g: usize) -> bool {
    exists|i: int| #![trigger addrs[i]] 0 <= i < addrs.len() && addrs[i] / 16 == g
}

/// Whether the objects at the addresses, and no others, were accounted for as
/// dead between `s` and `f`, in this order.
pub open spec fn accounted(heap: Heap, s: CycleState, f: CycleState, addrs: Seq<usize>) -> bool {
    // They are listed as reclaimed.
    &&& f.freed == s.freed + addrs
    // The large ones are freed.
    &&& f.freed_large == s.freed_large + large_ones(heap, addrs).map_values(|a: usize| object_at(a))
    // The blocks of the others are noted.
    &&& f.dead_blocks == s.dead_blocks + small_ones(heap, addrs).map_values(
        |a: usize| (a / 32768 * 32768) as usize,
    )
    // The first word of each says that it is dead.
    &&& f.overwritten == s.overwritten + addrs.map_values(|a: usize| object_at(a))
    // They are counted.
    &&& numbers_went_up(heap, s.dead, f.dead, addrs)
    // Their lines are free, and no trace has found them dead.
    &&& forall|l: usize| #[trigger]
        f.straddle[l] == (if line_of_one(heap, addrs, l) {
            0
        } else {
            s.straddle[l]
        })
    &&& forall|g: usize| #[trigger]
        f.dead_cycles[g] == (if granule_of_one(addrs, g) {
            0
        } else {
            s.dead_cycles[g]
        })
}

/// Whether nothing was accounted for as dead between `s` and `f`.
pub open spec fn nothing_died(s: CycleState, f: CycleState) -> bool {
    &&& f.freed == s.freed
    &&& f.freed_large == s.freed_large
    &&& f.dead_blocks == s.dead_blocks
    &&& f.overwritten == s.overwritten
    &&& f.dead == s.dead
    &&& f.straddle == s.straddle
    &&& f.dead_cycles == s.dead_cycles
}

/// No addresses, no bytes; and the bytes of two rows are those of both.
proof fn bytes_of_both(heap: Heap, a: Seq<usize>, b: Seq<usize>)
    ensures
        bytes(heap, a + b) == bytes(heap, a) + bytes(heap, b),
    decreases b.len(),
{
    if b.len() == 0 {
        assert(a + b =~= a);
    } else {
        assert((a + b).drop_last() =~= a + b.drop_last());
        bytes_of_both(heap, a, b.drop_last());
    }
}

/// Going up twice.
pub proof fn went_up_twice(a: usize, b: usize, c: usize, n: nat, m: nat)
    requires
        went_up(a, b, n),
        went_up(b, c, m),
    ensures
        went_up(a, c, n + m),
{
    let k = usize::MAX + 1;
    vstd::arithmetic::div_mod::lemma_add_mod_noop(a + n, m as int, k);
    vstd::arithmetic::div_mod::lemma_add_mod_noop(b as int, m as int, k);
    vstd::arithmetic::div_mod::lemma_small_mod(b as nat, k as nat);
}

/// Mapping the elements of two rows.
proof fn map_of_both<A, B>(a: Seq<A>, b: Seq<A>, f: spec_fn(A) -> B)
    ensures
        (a + b).map_values(f) == a.map_values(f) + b.map_values(f),
{
    assert((a + b).map_values(f) =~= a.map_values(f) + b.map_values(f));
}

/// Deaths that are accounted for one after the other are accounted for together.
proof fn accounts_add_up(
    heap: Heap,
    s: CycleState,
    v: CycleState,
    f: CycleState,
    a: Seq<usize>,
    b: Seq<usize>,
)
    requires
        accounted(heap, s, v, a),
        accounted(heap, v, f, b),
    ensures
        accounted(heap, s, f, a + b),
{
    let large = |x: usize| !heap.info(object_at(x)).in_immix_space;
    let small = |x: usize| heap.info(object_at(x)).in_immix_space;
    let at = |x: usize| object_at(x);
    let start = |x: usize| (x / 32768 * 32768) as usize;
    Seq::filter_distributes_over_add(a, b, large);
    Seq::filter_distributes_over_add(a, b, small);
    let (la, lb) = (large_ones(heap, a), large_ones(heap, b));
    let (sa, sb) = (small_ones(heap, a), small_ones(heap, b));
    map_of_both(la, lb, at);
    map_of_both(sa, sb, start);
    map_of_both(a, b, at);
    assert(f.freed =~= s.freed + (a + b));
    assert(f.freed_large =~= s.freed_large + (la + lb).map_values(at));
    assert(f.dead_blocks =~= s.dead_blocks + (sa + sb).map_values(start));
    assert(f.overwritten =~= s.overwritten + (a + b).map_values(at));
    bytes_of_both(heap, a, b);
    bytes_of_both(heap, la, lb);
    let (x, y, z) = (s.dead, v.dead, f.dead);
    let (n, m) = (a.len(), b.len());
    let (p, q) = (bytes(heap, a), bytes(heap, b));
    went_up_twice(x.dead_mature_objects, y.dead_mature_objects, z.dead_mature_objects, n, m);
    went_up_twice(x.dead_mature_volume, y.dead_mature_volume, z.dead_mature_volume, p, q);
    went_up_twice(
        x.dead_mature_rc_objects,
        y.dead_mature_rc_objects,
        z.dead_mature_rc_objects,
        n,
        m,
    );
    went_up_twice(x.dead_mature_rc_volume, y.dead_mature_rc_volume, z.dead_mature_rc_volume, p, q);
    let (n, m) = (la.len(), lb.len());
    let (p, q) = (bytes(heap, la), bytes(heap, lb));
    went_up_twice(
        x.dead_mature_los_objects,
        y.dead_mature_los_objects,
        z.dead_mature_los_objects,
        n,
        m,
    );
    went_up_twice(
        x.dead_mature_los_volume,
        y.dead_mature_los_volume,
        z.dead_mature_los_volume,
        p,
        q,
    );
    went_up_twice(
        x.dead_mature_rc_los_objects,
        y.dead_mature_rc_los_objects,
        z.dead_mature_rc_los_objects,
        n,
        m,
    );
    went_up_twice(
        x.dead_mature_rc_los_volume,
        y.dead_mature_rc_los_volume,
        z.dead_mature_rc_los_volume,
        p,
        q,
    );
    assert forall|l: usize| line_of_one(heap, a + b, l) <==> line_of_one(heap, a, l)
        || line_of_one(heap, b, l) by {
        lines_of_both(heap, a, b, l);
    }
    assert forall|g: usize| granule_of_one(a + b, g) <==> granule_of_one(a, g) || granule_of_one(
        b,
        g,
    ) by {
        granules_of_both(a, b, g);
    }
    assert forall|l: usize| #[trigger]
        f.straddle[l] == (if line_of_one(heap, a + b, l) {
            0
        } else {
            s.straddle[l]
        }) by {
        assert(v.straddle[l] == (if line_of_one(heap, a, l) {
            0
        } else {
            s.straddle[l]
        }));
    }
    assert forall|g: usize| #[trigger]
        f.dead_cycles[g] == (if granule_of_one(a + b, g) {
            0
        } else {
            s.dead_cycles[g]
        }) by {
        assert(v.dead_cycles[g] == (if granule_of_one(a, g) {
            0
        } else {
            s.dead_cycles[g]
        }));
    }
}

/// The lines of two rows of objects are those of both.
proof fn lines_of_both(heap: Heap, a: Seq<usize>, b: Seq<usize>, l: usize)
    ensures
        line_of_one(heap, a + b, l) <==> line_of_one(heap, a, l) || line_of_one(heap, b, l),
{
    let r = a + b;
    let p = |x: usize|
        {
            let info = heap.info(object_at(x));
            info.in_immix_space && info.size > 256 && rc_laws::inside_object(x, info.size, l as int)
        };
    if line_of_one(heap, r, l) {
        let i = choose|i: int| #![trigger r[i]] 0 <= i < r.len() && p(r[i]);
        assert(p(r[i]));
        if i < a.len() {
            assert(a[i] == r[i]);
        } else {
            assert(b[i - a.len()] == r[i]);
        }
    }
    if line_of_one(heap, a, l) {
        let i = choose|i: int| #![trigger a[i]] 0 <= i < a.len() && p(a[i]);
        assert(p(a[i]));
        assert(r[i] == a[i]);
    }
    if line_of_one(heap, b, l) {
        let i = choose|i: int| #![trigger b[i]] 0 <= i < b.len() && p(b[i]);
        assert(p(b[i]));
        assert(r[a.len() + i] == b[i]);
    }
}

/// The granules of two rows of objects are those of both.
proof fn granules_of_both(a: Seq<usize>, b: Seq<usize>, g: usize)
    ensures
        granule_of_one(a + b, g) <==> granule_of_one(a, g) || granule_of_one(b, g),
{
    let r = a + b;
    if granule_of_one(r, g) {
        let i = choose|i: int| #![trigger r[i]] 0 <= i < r.len() && r[i] / 16 == g;
        if i < a.len() {
            assert(a[i] == r[i]);
        } else {
            assert(b[i - a.len()] == r[i]);
        }
    }
    if granule_of_one(a, g) {
        let i = choose|i: int| #![trigger a[i]] 0 <= i < a.len() && a[i] / 16 == g;
        assert(r[i] == a[i]);
    }
    if granule_of_one(b, g) {
        let i = choose|i: int| #![trigger b[i]] 0 <= i < b.len() && b[i] / 16 == g;
        assert(r[a.len() + i] == b[i]);
    }
}

/// Where nothing died, no deaths are accounted for.
proof fn no_deaths(heap: Heap, s: CycleState, f: CycleState)
    requires
        nothing_died(s, f),
    ensures
        accounted(heap, s, f, Seq::empty()),
{
    reveal(Seq::filter);
    let none = Seq::<usize>::empty();
    assert(s.freed + none =~= s.freed);
    assert(large_ones(heap, none) =~= none);
    assert(small_ones(heap, none) =~= none);
    assert(s.freed_large + none.map_values(|a: usize| object_at(a)) =~= s.freed_large);
    assert(s.dead_blocks + none.map_values(|a: usize| (a / 32768 * 32768) as usize)
        =~= s.dead_blocks);
    assert(s.overwritten + none.map_values(|a: usize| object_at(a)) =~= s.overwritten);
    assert forall|x: usize| #[trigger] went_up(x, x, 0) by {
        vstd::arithmetic::div_mod::lemma_small_mod(x as nat, (usize::MAX + 1) as nat);
    }
}

/// A counter that wraps goes up by one step.
pub proof fn wrapping_goes_up(x: usize, n: usize)
    ensures
        went_up(x, x.wrapping_add(n), n as nat),
        went_up(x, x, 0),
{
    let k = usize::MAX + 1;
    vstd::arithmetic::div_mod::lemma_small_mod(x as nat, k as nat);
    if x + n < k {
        vstd::arithmetic::div_mod::lemma_small_mod((x + n) as nat, k as nat);
    } else {
        vstd::arithmetic::div_mod::lemma_mod_add_multiples_vanish(x + n - k, k);
        vstd::arithmetic::div_mod::lemma_small_mod((x + n - k) as nat, k as nat);
    }
}

/// Reclaiming an object accounts for it: if it is large it is freed, otherwise its
/// block is noted and its lines are free; and it is counted.
pub proof fn reclaimed_object_is_accounted_for(heap: Heap, s: CycleState, o: ObjectReference)
    ensures
        accounted(heap, s, cycle_model::reclaim(heap, s, o), seq![o.addr]),
{
    reveal(Seq::filter);
    let f = cycle_model::reclaim(heap, s, o);
    let one = seq![o.addr];
    let none = Seq::<usize>::empty();
    assert(one.drop_last() =~= none);
    assert(object_at(o.addr) == o);
    let info = heap.info(o);
    let large = large_ones(heap, one);
    let is_large = |a: usize| !heap.info(object_at(a)).in_immix_space;
    let is_small = |a: usize| heap.info(object_at(a)).in_immix_space;
    assert(one =~= none.push(o.addr));
    none.lemma_filter_push(o.addr, is_large);
    none.lemma_filter_push(o.addr, is_small);
    assert(none.filter(is_large) =~= none);
    assert(none.filter(is_small) =~= none);
    assert(large =~= if info.in_immix_space {
        none
    } else {
        one
    });
    assert(small_ones(heap, one) =~= if info.in_immix_space {
        one
    } else {
        none
    });
    assert(f.freed =~= s.freed + one);
    assert(f.overwritten =~= s.overwritten + one.map_values(|a: usize| object_at(a)));
    assert(f.freed_large =~= s.freed_large + large.map_values(|a: usize| object_at(a)));
    assert(f.dead_blocks =~= s.dead_blocks + small_ones(heap, one).map_values(
        |a: usize| (a / 32768 * 32768) as usize,
    ));
    assert(bytes(heap, none) == 0);
    assert(bytes(heap, one) == info.size);
    let d = s.dead;
    wrapping_goes_up(d.dead_mature_objects, 1);
    wrapping_goes_up(d.dead_mature_volume, info.size);
    wrapping_goes_up(d.dead_mature_rc_objects, 1);
    wrapping_goes_up(d.dead_mature_rc_volume, info.size);
    wrapping_goes_up(d.dead_mature_los_objects, 1);
    wrapping_goes_up(d.dead_mature_los_volume, info.size);
    wrapping_goes_up(d.dead_mature_rc_los_objects, 1);
    wrapping_goes_up(d.dead_mature_rc_los_volume, info.size);
    let t = CycleState { freed: s.freed.push(o.addr), ..s }.tagged(o, 0).paint(
        o,
        BLACK_OUT_OF_STACK,
    );
    rc_laws::filled_lines_lie_inside(t.straddle, t.counts.rc, o.addr, info.size, 0);
    assert(one[0] == o.addr);
    assert forall|l: usize| #[trigger]
        f.straddle[l] == (if line_of_one(heap, one, l) {
            0
        } else {
            s.straddle[l]
        }) by {
        if info.in_immix_space && info.size > 256 && rc_laws::inside_object(
            o.addr,
            info.size,
            l as int,
        ) {
            assert(line_of_one(heap, one, l));
        }
    }
    assert forall|g: usize| #[trigger]
        f.dead_cycles[g] == (if granule_of_one(one, g) {
            0
        } else {
            s.dead_cycles[g]
        }) by {
        assert(g == o.addr / 16 ==> granule_of_one(one, g));
    }
}

/// Taking references away kills nothing.
proof fn take_away_kills_nothing(s: CycleState, xs: Seq<ObjectReference>)
    ensures
        nothing_died(s, cycle_model::take_away(s, xs)),
    decreases xs.len(),
{
    if xs.len() > 0 {
        take_away_kills_nothing(s, xs.drop_last());
    }
}

/// Giving references back kills nothing.
proof fn give_back_kills_nothing(s: CycleState, xs: Seq<ObjectReference>, tag: u8)
    ensures
        nothing_died(s, cycle_model::give_back(s, xs, tag)),
    decreases xs.len(),
{
    if xs.len() > 0 {
        let x = xs.last();
        let t = s.inc(x).tagged(x, tag);
        give_back_kills_nothing(
            if t.is_black(x) {
                t
            } else {
                t.strong_dec(x)
            },
            xs.drop_last(),
            tag,
        );
    }
}

/// Restoring references kills nothing.
proof fn restore_kills_nothing(s: CycleState, xs: Seq<ObjectReference>)
    ensures
        nothing_died(s, cycle_model::restore(s, xs)),
    decreases xs.len(),
{
    if xs.len() > 0 {
        restore_kills_nothing(s, xs.drop_last());
    }
}

/// Dropping references kills nothing.
proof fn drop_refs_kills_nothing(w: Walk, xs: Seq<ObjectReference>, tag: u8)
    ensures
        nothing_died(w.s, cycle_model::drop_refs(w, xs, tag).s),
    decreases xs.len(),
{
    if xs.len() > 0 {
        drop_refs_kills_nothing(w, xs.drop_last(), tag);
    }
}

/// Trial deletion kills nothing.
pub proof fn mark_kills_nothing(c: Snapshot, w: Walk)
    requires
        c.wf(),
        c.holds(w.stack),
    ensures
        nothing_died(w.s, cycle_model::mark_all(c, w).s),
    decreases
            cycle_model::count_all(c.heap, cycle_model::unmarked(w.s)),
            w.stack.len(),
{
    if w.stack.len() > 0 {
        let o = w.stack.last();
        cycle_model::mark_step_progress(c, w);
        if cycle_model::markable(w.s, o) {
            let xs = cycle_model::refs(c.heap, c.unlogged_slots(o));
            let s1 = w.s.paint(o, GREY);
            take_away_kills_nothing(s1, xs);
            give_back_kills_nothing(
                cycle_model::take_away(s1, xs).paint(o, BLACK_IN_STACK),
                xs,
                c.tag,
            );
        }
        mark_kills_nothing(c, cycle_model::mark_step(c, w));
    }
}

/// The mark phase kills nothing.
proof fn mark_buffers_kills_nothing(c: Snapshot, vec_index: u8, b: BufferWalk)
    requires
        c.wf(),
        b.wf(),
        cycle_phases::all_in_heap(c, b.buffers),
    ensures
        nothing_died(b.s, cycle_phases::mark_buffers(c, vec_index, b).s),
    decreases b.pending().len(),
{
    let (bi, ei) = buffer::seek(b.buffers, b.bi, b.ei);
    if bi < b.buffers.len() {
        cycle_phases::mark_buffer_step_progress(c, vec_index, b);
        let o = b.buffers[bi][ei];
        if cycle_phases::should_mark(b.s, o, vec_index) {
            let w = cycle_model::walk_from(b.s.tagged(o, 0), o, b.visited, 0);
            assert(c.holds(w.stack));
            mark_kills_nothing(c, w);
        }
        mark_buffers_kills_nothing(c, vec_index, cycle_phases::mark_buffer_step(c, vec_index, b));
    }
}

/// Restoring kills nothing.
pub proof fn scan_black_kills_nothing(c: Snapshot, w: Walk)
    requires
        c.wf(),
        c.holds(w.stack),
        c.covers(w.s.color),
    ensures
        nothing_died(w.s, cycle_model::scan_black_all(c, w).s),
    decreases
            cycle_model::count_all(c.heap, cycle_model::not_black(w.s)),
            w.stack.len(),
{
    if w.stack.len() > 0 {
        let o = w.stack.last();
        cycle_model::scan_black_step_progress(c, w);
        let t = w.s.paint(o, BLACK_IN_STACK).with_strong(
            o,
            cycle_model::restored_strong(w.s.counts.rc[o.granule()]),
        );
        restore_kills_nothing(t, cycle_model::satb_refs(c, c.heap.slots(o)));
        scan_black_kills_nothing(c, cycle_model::scan_black_step(c, w));
    }
}

/// A scan kills nothing.
pub proof fn scan_kills_nothing(c: Snapshot, w: Walk)
    requires
        c.wf(),
        c.holds(w.stack),
        c.covers(w.s.color),
    ensures
        nothing_died(w.s, cycle_model::scan_all(c, w).s),
    decreases cycle_model::count_all(c.heap, cycle_model::grey(w.s)), w.stack.len(),
{
    if w.stack.len() > 0 {
        let o = w.stack.last();
        cycle_model::scan_step_progress(c, w);
        cycle_model::pop_in_heap(c, w.stack);
        let start = cycle_model::walk_from(w.s, o, w.nested, 0);
        assert(c.holds(start.stack));
        scan_black_kills_nothing(c, start);
        scan_kills_nothing(c, cycle_model::scan_step(c, w));
    }
}

/// The scan phase kills nothing.
proof fn scan_each_kills_nothing(c: Snapshot, w: Walk, xs: Seq<ObjectReference>)
    requires
        c.wf(),
        c.holds(xs),
        c.covers(w.s.color),
    ensures
        nothing_died(w.s, cycle_phases::scan_each(c, w, xs).s),
    decreases xs.len(),
{
    if xs.len() > 0 {
        let p = xs.drop_last();
        cycle_model::pop_in_heap(c, xs);
        scan_each_kills_nothing(c, w, p);
        cycle_phases::scan_each_covers(c, w, p);
        let v = cycle_phases::scan_each(c, w, p);
        let start = cycle_model::walk_from(v.s, xs.last(), v.visited, v.nested);
        assert(c.holds(start.stack));
        scan_kills_nothing(c, start);
    }
}

/// What was listed as reclaimed between `s` and `f`.
pub open spec fn newly_freed(s: CycleState, f: CycleState) -> Seq<usize> {
    f.freed.skip(s.freed.len() as int)
}

/// The addresses are those that were listed.
proof fn freed_are_listed(heap: Heap, s: CycleState, f: CycleState, addrs: Seq<usize>)
    requires
        accounted(heap, s, f, addrs),
    ensures
        accounted(heap, s, f, newly_freed(s, f)),
        newly_freed(s, f) == addrs,
{
    assert(newly_freed(s, f) =~= addrs);
}

/// Reclaiming a live object, with all that dies with it, accounts for every object
/// that it lists as reclaimed, and for no other.
pub proof fn collect_blacks_accounts(c: Snapshot, w: Walk)
    requires
        c.wf(),
        c.holds(w.stack),
    ensures
        ({
            let f = cycle_model::collect_blacks_all(c, w);
            accounted(c.heap, w.s, f.s, newly_freed(w.s, f.s))
        }),
    decreases
            cycle_model::count_all(c.heap, cycle_model::referenced(w.s)),
            w.stack.len(),
{
    if w.stack.len() == 0 {
        no_deaths(c.heap, w.s, w.s);
        freed_are_listed(c.heap, w.s, w.s, Seq::empty());
    } else {
        let o = w.stack.last();
        let xs = cycle_model::refs(c.heap, c.heap.slots(o));
        let u = Walk { stack: w.stack.drop_last(), visited: w.visited.wrapping_add(1), ..w };
        let d = cycle_model::drop_refs(u, xs, c.tag);
        let v = cycle_model::collect_blacks_step(c, w);
        cycle_model::collect_blacks_step_progress(c, w);
        drop_refs_kills_nothing(u, xs, c.tag);
        no_deaths(c.heap, w.s, d.s);
        reclaimed_object_is_accounted_for(c.heap, d.s, o);
        accounts_add_up(c.heap, w.s, d.s, v.s, Seq::empty(), seq![o.addr]);
        collect_blacks_accounts(c, v);
        let f = cycle_model::collect_blacks_all(c, w);
        let a = Seq::<usize>::empty() + seq![o.addr];
        let b = newly_freed(v.s, f.s);
        accounts_add_up(c.heap, w.s, v.s, f.s, a, b);
        freed_are_listed(c.heap, w.s, f.s, a + b);
    }
}

/// The collection from the objects of a stack accounts for every object that it
/// lists as reclaimed, and for no other.
pub proof fn collect_whites_accounts(c: Snapshot, w: Walk)
    requires
        c.wf(),
        c.holds(w.stack),
    ensures
        ({
            let f = cycle_model::collect_whites_all(c, w);
            accounted(c.heap, w.s, f.s, newly_freed(w.s, f.s))
        }),
    decreases cycle_model::count_all(c.heap, cycle_model::white(w.s)), w.stack.len(),
{
    if w.stack.len() == 0 {
        no_deaths(c.heap, w.s, w.s);
        freed_are_listed(c.heap, w.s, w.s, Seq::empty());
    } else {
        let o = w.stack.last();
        let v = cycle_model::collect_whites_step(c, w);
        cycle_model::collect_whites_step_progress(c, w);
        let start = cycle_model::walk_from(w.s, o, w.visited.wrapping_add(1), 0);
        assert(c.heap.contains(o));
        assert(c.holds(start.stack));
        collect_blacks_accounts(c, start);
        reclaimed_object_is_accounted_for(c.heap, w.s, o);
        freed_are_listed(
            c.heap,
            w.s,
            cycle_model::reclaim(c.heap, w.s, o),
            seq![o.addr],
        );
        no_deaths(c.heap, w.s, w.s);
        freed_are_listed(c.heap, w.s, w.s, Seq::empty());
        let a = newly_freed(w.s, v.s);
        assert(accounted(c.heap, w.s, v.s, a));
        collect_whites_accounts(c, v);
        let f = cycle_model::collect_whites_all(c, w);
        let b = newly_freed(v.s, f.s);
        accounts_add_up(c.heap, w.s, v.s, f.s, a, b);
        freed_are_listed(c.heap, w.s, f.s, a + b);
    }
}

/// The collect phase accounts for every object that it lists as reclaimed, and for
/// no other.
proof fn collect_each_accounts(c: Snapshot, w: Walk, xs: Seq<ObjectReference>)
    requires
        c.wf(),
        c.holds(xs),
    ensures
        ({
            let f = cycle_phases::collect_each(c, w, xs);
            accounted(c.heap, w.s, f.s, newly_freed(w.s, f.s))
        }),
    decreases xs.len(),
{
    if xs.len() == 0 {
        no_deaths(c.heap, w.s, w.s);
        freed_are_listed(c.heap, w.s, w.s, Seq::empty());
    } else {
        let p = xs.drop_last();
        cycle_model::pop_in_heap(c, xs);
        collect_each_accounts(c, w, p);
        let v = cycle_phases::collect_each(c, w, p);
        let start = cycle_model::walk_from(v.s, xs.last(), v.visited, 0);
        assert(c.holds(start.stack));
        collect_whites_accounts(c, start);
        let f = cycle_phases::collect_each(c, w, xs);
        let (a, b) = (newly_freed(w.s, v.s), newly_freed(v.s, f.s));
        accounts_add_up(c.heap, w.s, v.s, f.s, a, b);
        freed_are_listed(c.heap, w.s, f.s, a + b);
    }
}

/// A scan and a collection of candidates, from a state in which nothing died.
proof fn phases_account(
    c: Snapshot,
    s: CycleState,
    m: CycleState,
    left: Seq<ObjectReference>,
    stats: CycleCollectorStats,
)
    requires
        c.wf(),
        c.holds(left),
        c.covers(m.color),
        nothing_died(s, m),
    ensures
        ({
            let sc = cycle_phases::scan_each(
                c,
                cycle_phases::carry(m, stats.objects_in_scan, stats.objects_in_scan_black),
                left,
            );
            let co = cycle_phases::collect_each(
                c,
                cycle_phases::carry(sc.s, stats.objects_in_collect, 0),
                left,
            );
            accounted(c.heap, s, co.s, newly_freed(s, co.s))
        }),
{
    let w0 = cycle_phases::carry(m, stats.objects_in_scan, stats.objects_in_scan_black);
    let sc = cycle_phases::scan_each(c, w0, left);
    scan_each_kills_nothing(c, w0, left);
    let w1 = cycle_phases::carry(sc.s, stats.objects_in_collect, 0);
    let co = cycle_phases::collect_each(c, w1, left);
    collect_each_accounts(c, w1, left);
    assert(nothing_died(s, sc.s));
    no_deaths(c.heap, s, sc.s);
    let a = newly_freed(sc.s, co.s);
    accounts_add_up(c.heap, s, sc.s, co.s, Seq::empty(), a);
    freed_are_listed(c.heap, s, co.s, Seq::<usize>::empty() + a);
}

/// The collection of one pool accounts for every object that it lists as
/// reclaimed, and for no other: the large ones are freed, the blocks of the
/// others are noted.
pub proof fn pool_collection_accounts_for_the_dead(
    c: Snapshot,
    s: CycleState,
    buffers: Seq<Seq<ObjectReference>>,
    vec_index: u8,
    stats: CycleCollectorStats,
)
    requires
        c.wf(),
        c.covers(s.color),
        cycle_phases::all_in_heap(c, buffers),
    ensures
        ({
            let f = gc_work::collect_pool(c, s, buffers, vec_index, stats).s;
            accounted(c.heap, s, f, newly_freed(s, f))
        }),
{
    let from = cycle_phases::buffers_from(s, buffers, stats.objects_in_mark);
    let m = cycle_phases::mark_buffers(c, vec_index, from);
    mark_buffers_kills_nothing(c, vec_index, from);
    cycle_phases::mark_buffers_covers(c, vec_index, from);
    cycle_phases::flatten_in_heap(c, m.buffers);
    phases_account(c, s, m.s, m.buffers.flatten(), stats);
}

/// The collection of all pools accounts for every object that it lists as
/// reclaimed, and for no other.
pub proof fn full_collection_accounts_for_the_dead(
    lxr: Lxr,
    heap: Heap,
    d: (Seq<Seq<ObjectReference>>, Seq<Seq<ObjectReference>>, Seq<Seq<ObjectReference>>),
    stats: CycleCollectorStats,
)
    requires
        heap.wf(),
        lxr.wf(),
        lxr.snapshot(heap).covers(lxr.tables.obj_color@),
        cycle_phases::all_in_heap(lxr.snapshot(heap), d.0),
        cycle_phases::all_in_heap(lxr.snapshot(heap), d.1),
        cycle_phases::all_in_heap(lxr.snapshot(heap), d.2),
    ensures
        ({
            let s = gc_work::unreported(lxr.cycle_state());
            let f = gc_work::collect_all_pools(lxr, heap, d, stats).s;
            accounted(heap, s, f, newly_freed(s, f))
        }),
{
    let c = lxr.snapshot(heap);
    let s = gc_work::unreported(lxr.cycle_state());
    let curr = lxr.curr_vec;
    let (m0, m1, m2) = gc_work::mark_rounds(curr, c, s, d, stats.objects_in_mark);
    round_kills_nothing(curr, c, 0, s, d.0, stats.objects_in_mark);
    round_kills_nothing(curr, c, 1, m0.s, d.1, m0.visited);
    round_kills_nothing(curr, c, 2, m1.s, d.2, m1.visited);
    cycle_phases::flatten_in_heap(c, m0.buffers);
    cycle_phases::flatten_in_heap(c, m1.buffers);
    cycle_phases::flatten_in_heap(c, m2.buffers);
    let (l0, l1, l2) = (m0.buffers.flatten(), m1.buffers.flatten(), m2.buffers.flatten());
    cycle_model::concat_in_heap(c, l0, l1);
    cycle_model::concat_in_heap(c, l0 + l1, l2);
    phases_account(c, s, m2.s, l0 + l1 + l2, stats);
}

/// One round of marking kills nothing.
proof fn round_kills_nothing(
    curr: u8,
    c: Snapshot,
    i: int,
    s: CycleState,
    buffers: Seq<Seq<ObjectReference>>,
    visited: usize,
)
    requires
        c.wf(),
        curr < 3,
        0 <= i < 3,
        c.covers(s.color),
        cycle_phases::all_in_heap(c, buffers),
    ensures
        ({
            let m = gc_work::mark_round_of(curr, c, i, s, buffers, visited);
            &&& nothing_died(s, m.s)
            &&& c.covers(m.s.color)
            &&& cycle_phases::all_in_heap(c, m.buffers)
        }),
{
    let d = gc_work::round_snapshot(c, curr, i);
    let from = cycle_phases::buffers_from(s, buffers, visited);
    let tag = (gc_work::visited_pool(curr, i) + 1) as u8;
    assert(d.covers(s.color));
    assert(cycle_phases::all_in_heap(d, buffers));
    mark_buffers_kills_nothing(d, tag, from);
    cycle_phases::mark_buffers_covers(d, tag, from);
    let m = cycle_phases::mark_buffers(d, tag, from);
    assert(c.covers(m.s.color)) by {
        assert(d.covers(m.s.color));
    }
    assert forall|i: int, j: int|
        0 <= i < m.buffers.len() && 0 <= j < m.buffers[i].len() implies c.heap.contains(
        #[trigger] m.buffers[i][j],
    ) by {
        assert(d.heap.contains(m.buffers[i][j]));
    }
}

/// A whole collection, over one pool or over all, accounts for every object that
/// its report lists as reclaimed, and for no other.
///
/// For each address in the list the object is appended to the freed large objects
/// exactly if it does not lie in the block-structured space; otherwise its block
/// is noted and the lines that it covers are free. Each is listed as overwritten,
/// and the numbers go up by the objects and their bytes.
pub proof fn collection_accounts_for_the_dead(
    old_cc: CycleCollector,
    new_cc: CycleCollector,
    old: Lxr,
    new: Lxr,
    heap: Heap,
)
    requires
        heap.wf(),
        old.wf(),
        gc_work::pools_ready(old, heap),
        old.snapshot(heap).covers(old.tables.obj_color@),
        old.current_pause == Some(Pause::FullRC) ==> gc_work::collected_all_pools(
            old_cc,
            new_cc,
            old,
            new,
            heap,
        ),
        old.current_pause != Some(Pause::FullRC) ==> gc_work::collected_one_pool(
            old_cc,
            new_cc,
            old,
            new,
            heap,
        ),
    ensures
        ({
            let freed = new.graph_reporter.cycle_collector_freed@;
            let blocks = small_ones(heap, freed);
            let n = old.possibly_dead_mature_blocks@.len();
            &&& new.freed_large_objects@ == old.freed_large_objects@ + large_ones(
                heap,
                freed,
            ).map_values(|a: usize| object_at(a))
            &&& new.possibly_dead_mature_blocks@.len() == n + blocks.len()
            &&& forall|i: int|
                #![trigger new.possibly_dead_mature_blocks@[i]]
                0 <= i < n + blocks.len() ==> new.possibly_dead_mature_blocks@[i].start == (if i
                    < n {
                    old.possibly_dead_mature_blocks@[i].start
                } else {
                    (blocks[i - n] / 32768 * 32768) as usize
                })
            &&& new.overwritten_objects@ == old.overwritten_objects@ + freed.map_values(
                |a: usize| object_at(a),
            )
            &&& numbers_went_up(heap, old.stat, new.stat, freed)
            &&& forall|l: usize| #[trigger]
                new.tables.rc_straddle_lines@[l] == (if line_of_one(heap, freed, l) {
                    0
                } else {
                    old.tables.rc_straddle_lines@[l]
                })
            &&& forall|g: usize| #[trigger]
                new.tables.sanity_dead_cycle_count@[g] == (if granule_of_one(freed, g) {
                    0
                } else {
                    old.tables.sanity_dead_cycle_count@[g]
                })
            &&& forall|a: usize| #[trigger]
                freed.contains(a) && !heap.info(object_at(a)).in_immix_space
                    ==> new.freed_large_objects@.contains(object_at(a))
        }),
{
    let s = gc_work::unreported(old.cycle_state());
    let f = new.cycle_state();
    let c = old.snapshot(heap);
    let freed = new.graph_reporter.cycle_collector_freed@;
    let curr = old.curr_vec;
    if old.current_pause == Some(Pause::FullRC) {
        let d = gc_work::all_drained(old);
        let (p0, p1, p2) = (
            gc_work::visited_pool(curr, 0),
            gc_work::visited_pool(curr, 1),
            gc_work::visited_pool(curr, 2),
        );
        assert(0 <= p0 < 3 && 0 <= p1 < 3 && 0 <= p2 < 3);
        assert(cycle_phases::all_in_heap(c, gc_work::drained(old.candidate_pools@[p0]@)));
        assert(cycle_phases::all_in_heap(c, gc_work::drained(old.candidate_pools@[p1]@)));
        assert(cycle_phases::all_in_heap(c, gc_work::drained(old.candidate_pools@[p2]@)));
        full_collection_accounts_for_the_dead(old, heap, d, old_cc.stats);
    } else {
        let next = gc_work::next_pool(curr);
        assert(0 <= next < 3);
        let b = gc_work::drained(old.candidate_pools@[next]@);
        assert(cycle_phases::all_in_heap(c, b));
        pool_collection_accounts_for_the_dead(c, s, b, (next + 1) as u8, old_cc.stats);
    }
    assert(newly_freed(s, f) =~= freed);
    let blocks = small_ones(heap, freed);
    let starts = f.dead_blocks;
    assert(starts.len() == new.possibly_dead_mature_blocks@.len());
    assert forall|i: int|
        #![trigger new.possibly_dead_mature_blocks@[i]]
        0 <= i < new.possibly_dead_mature_blocks@.len() implies
        new.possibly_dead_mature_blocks@[i].start == starts[i] by {}
    let n = old.possibly_dead_mature_blocks@.len();
    let base = s.dead_blocks;
    assert(base.len() == n);
    assert(starts == base + blocks.map_values(|a: usize| (a / 32768 * 32768) as usize));
    assert forall|i: int|
        #![trigger new.possibly_dead_mature_blocks@[i]]
        0 <= i < n + blocks.len() implies new.possibly_dead_mature_blocks@[i].start == (if i < n {
        old.possibly_dead_mature_blocks@[i].start
    } else {
        (blocks[i - n] / 32768 * 32768) as usize
    }) by {
        if i < n {
            assert(starts[i] == base[i]);
        } else {
            assert(starts[i] == (blocks[i - n] / 32768 * 32768) as usize);
        }
    }
    assert(f.straddle == new.tables.rc_straddle_lines@);
    assert(f.dead_cycles == new.tables.sanity_dead_cycle_count@);
    assert forall|l: usize| #[trigger]
        new.tables.rc_straddle_lines@[l] == (if line_of_one(heap, freed, l) {
            0
        } else {
            old.tables.rc_straddle_lines@[l]
        }) by {
        assert(f.straddle[l] == new.tables.rc_straddle_lines@[l]);
        assert(s.straddle[l] == old.tables.rc_straddle_lines@[l]);
    }
    assert forall|g: usize| #[trigger]
        new.tables.sanity_dead_cycle_count@[g] == (if granule_of_one(freed, g) {
            0
        } else {
            old.tables.sanity_dead_cycle_count@[g]
        }) by {
        assert(f.dead_cycles[g] == new.tables.sanity_dead_cycle_count@[g]);
        assert(s.dead_cycles[g] == old.tables.sanity_dead_cycle_count@[g]);
    }
    let large = large_ones(heap, freed);
    let n = old.freed_large_objects@.len();
    assert forall|a: usize| #[trigger]
        freed.contains(a) && !heap.info(object_at(a)).in_immix_space implies
        new.freed_large_objects@.contains(object_at(a)) by {
        let i = choose|i: int| 0 <= i < freed.len() && freed[i] == a;
        freed.lemma_filter_contains(|a: usize| !heap.info(object_at(a)).in_immix_space, i);
        let j = choose|j: int| 0 <= j < large.len() && large[j] == a;
        assert(new.freed_large_objects@[n + j] == object_at(a));
    }
}

} // verus!
