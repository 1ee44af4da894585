//! What announced writes come to.

use crate::plan::lxr::barrier::{BarrierContext, BarrierState, LXRFieldBarrierSemantics};
use crate::plan::lxr::buffer;
use crate::plan::lxr::cycle_model::Snapshot;
use crate::plan::lxr::dead_laws;
use crate::plan::lxr::global::Lxr;
use crate::util::address::ObjectReference;
use crate::vm::heap::Heap;
use vstd::prelude::*;

verus! {

/// Those of `slots` that are not logged yet, each once, in the order in which
/// they come first.
pub open spec fn first_writes(unlog: Map<usize, u8>, slots: Seq<usize>) -> Seq<usize>
    decreases slots.len(),
{
    if slots.len() == 0 {
        Seq::empty()
    } else {
        let p = first_writes(unlog, slots.drop_last());
        if unlog[slots.last()] != 0 && !p.contains(slots.last()) {
            p.push(slots.last())
        } else {
            p
        }
    }
}

/// The slots that are written first are those of the slots that are not logged,
/// each once.
pub proof fn first_writes_are_distinct(unlog: Map<usize, u8>, slots: Seq<usize>)
    ensures
        first_writes(unlog, slots).no_duplicates(),
        first_writes(unlog, slots).len() <= slots.len(),
        forall|a: usize| #[trigger]
            first_writes(unlog, slots).contains(a) <==> slots.contains(a) && unlog[a] != 0,
    decreases slots.len(),
{
    if slots.len() > 0 {
        let q = slots.drop_last();
        let x = slots.last();
        first_writes_are_distinct(unlog, q);
        let p = first_writes(unlog, q);
        let f = first_writes(unlog, slots);
        assert forall|a: usize| #[trigger]
            f.contains(a) <==> slots.contains(a) && unlog[a] != 0 by {
            if f.contains(a) {
                let i = choose|i: int| 0 <= i < f.len() && f[i] == a;
                if i < p.len() {
                    assert(p[i] == a);
                    assert(p.contains(a));
                    let j = choose|j: int| 0 <= j < q.len() && q[j] == a;
                    assert(slots[j] == a);
                } else {
                    assert(a == x);
                    assert(slots[slots.len() - 1] == x);
                }
            }
            if slots.contains(a) && unlog[a] != 0 {
                let j = choose|j: int| 0 <= j < slots.len() && slots[j] == a;
                if j < q.len() {
                    assert(q[j] == a);
                    assert(p.contains(a));
                    let i = choose|i: int| 0 <= i < p.len() && p[i] == a;
                    assert(f[i] == a);
                } else if p.contains(a) {
                    let i = choose|i: int| 0 <= i < p.len() && p[i] == a;
                    assert(f[i] == a);
                } else {
                    assert(f[f.len() - 1] == a);
                }
            }
        }
        assert forall|i: int, j: int| 0 <= i < f.len() && 0 <= j < f.len() && i != j implies f[i]
            != f[j] by {
            if i == p.len() {
                assert(f[j] == p[j]);
                assert(p.contains(f[j]));
            }
            if j == p.len() {
                assert(f[i] == p[i]);
                assert(p.contains(f[i]));
            }
        }
    }
}

/// The objects that the slots hold, in order.
pub open spec fn held_by(
    fields: Map<usize, Option<ObjectReference>>,
    slots: Seq<usize>,
) -> Seq<ObjectReference>
    decreases slots.len(),
{
    if slots.len() == 0 {
        Seq::empty()
    } else {
        match fields[slots.last()] {
            Some(o) => held_by(fields, slots.drop_last()).push(o),
            None => held_by(fields, slots.drop_last()),
        }
    }
}

/// The number of elements of all packets together.
pub open spec fn total<T>(packets: Seq<Seq<T>>) -> nat {
    packets.flatten().len()
}

/// Whether the packets of `new` are those of `old` and full ones behind them.
pub open spec fn full_packets_added<T>(old: Seq<Seq<T>>, new: Seq<Seq<T>>) -> bool {
    &&& old.len() <= new.len()
    &&& forall|i: int| 0 <= i < old.len() ==> #[trigger] new[i] == old[i]
    &&& forall|i: int| old.len() <= i < new.len() ==> (#[trigger] new[i]).len() == 4096
}

/// What waits and what was handed over, in order.
pub open spec fn all_of<T>(packets: Seq<Seq<T>>, waiting: Seq<T>) -> Seq<T> {
    packets.flatten() + waiting
}

/// What announcing writes to `slots` of `src` does, where `fresh` are the slots
/// that are written first.
pub open spec fn announced(
    s: BarrierState,
    f: BarrierState,
    c: BarrierContext,
    src: Option<ObjectReference>,
    slots: Seq<usize>,
    fresh: Seq<usize>,
) -> bool {
    let watched = c.in_cycle_collection && (src matches Some(o) ==> c.color[(o.addr / 16) as usize]
        != 0);
    // Every slot is logged.
    &&& forall|a: usize| #[trigger]
        f.unlog[a] == (if slots.contains(a) {
            0
        } else {
            s.unlog[a]
        })
    // What is recorded of a slot is what it holds.
    &&& forall|a: usize| #[trigger]
        f.satb.dom().contains(a) <==> s.satb.dom().contains(a) || watched && fresh.contains(a)
    &&& forall|a: usize| #[trigger]
        f.satb[a] == (if watched && fresh.contains(a) {
            c.fields[a]
        } else {
            s.satb[a]
        })
    // Every slot that is written first is queued once, and what it holds.
    &&& all_of(f.inc_packets, f.incs) == all_of(s.inc_packets, s.incs) + fresh
    &&& c.lazy_decrements ==> {
        &&& all_of(f.lazy_dec_packets, f.decs) == all_of(s.lazy_dec_packets, s.decs) + held_by(
            c.fields,
            fresh,
        )
        &&& f.stw_dec_packets == s.stw_dec_packets
    }
    &&& !c.lazy_decrements ==> {
        &&& all_of(f.stw_dec_packets, f.decs) == all_of(s.stw_dec_packets, s.decs) + held_by(
            c.fields,
            fresh,
        )
        &&& f.lazy_dec_packets == s.lazy_dec_packets
    }
    // Queues are handed over when they are full.
    &&& s.incs.len() < 4096 ==> f.incs.len() < 4096 && full_packets_added(
        s.inc_packets,
        f.inc_packets,
    )
    &&& s.decs.len() < 4096 ==> f.decs.len() < 4096 && full_packets_added(
        s.lazy_dec_packets,
        f.lazy_dec_packets,
    ) && full_packets_added(s.stw_dec_packets, f.stw_dec_packets)
    &&& total(f.inc_packets) >= total(s.inc_packets)
    &&& f.inc_buffer_size == up_to_limit(
        s.inc_buffer_size + total(f.inc_packets) - total(s.inc_packets),
    )
    // Runs are counted.
    &&& counted_on(s.counters.fast_count, f.counters.fast_count, c.measuring, slots.len())
    &&& counted_on(s.counters.slow_count, f.counters.slow_count, c.measuring, fresh.len())
    &&& counted_on(s.slow_in_cc, f.slow_in_cc, c.in_cycle_collection, fresh.len())
    &&& counted_on(s.satb_inserts, f.satb_inserts, watched, fresh.len())
    &&& f.counters.barrier_slow_in_cc == s.counters.barrier_slow_in_cc
    &&& f.counters.barrier_satb_inserts == s.counters.barrier_satb_inserts
}

/// The number, or the largest that there is.
pub open spec fn up_to_limit(n: int) -> int {
    if n > usize::MAX {
        usize::MAX as int
    } else {
        n
    }
}

/// Whether a counter that wraps went up by `n` if it counts, and stayed if it does
/// not.
pub open spec fn counted_on(old: usize, new: usize, counts: bool, n: nat) -> bool {
    if counts {
        dead_laws::went_up(old, new, n)
    } else {
        new == old
    }
}

/// A counter that counts twice.
proof fn counted_twice(a: usize, b: usize, c: usize, counts: bool, n: nat, m: nat)
    requires
        counted_on(a, b, counts, n),
        counted_on(b, c, counts, m),
    ensures
        counted_on(a, c, counts, n + m),
{
    if counts {
        dead_laws::went_up_twice(a, b, c, n, m);
    }
}

/// A queue with one element more, handed over or not, has that element more.
proof fn one_more<T>(packets: Seq<Seq<T>>, waiting: Seq<T>, x: T)
    ensures
        all_of(packets, waiting.push(x)) == all_of(packets, waiting).push(x),
        all_of(packets.push(waiting.push(x)), Seq::empty()) == all_of(packets, waiting).push(x),
        total(packets.push(waiting.push(x))) == total(packets) + waiting.len() + 1,
{
    packets.lemma_flatten_push(waiting.push(x));
    assert(all_of(packets, waiting.push(x)) =~= all_of(packets, waiting).push(x));
    assert(all_of(packets.push(waiting.push(x)), Seq::empty()) =~= all_of(packets, waiting).push(
        x,
    ));
}

/// Full packets behind full packets are full packets.
proof fn full_packets_add_up<T>(a: Seq<Seq<T>>, b: Seq<Seq<T>>, c: Seq<Seq<T>>)
    requires
        full_packets_added(a, b),
        full_packets_added(b, c),
    ensures
        full_packets_added(a, c),
{
    assert forall|i: int| 0 <= i < a.len() implies #[trigger] c[i] == a[i] by {
        assert(b[i] == a[i]);
        assert(c[i] == b[i]);
    }
    assert forall|i: int| a.len() <= i < c.len() implies (#[trigger] c[i]).len() == 4096 by {
        if i < b.len() {
            assert(c[i] == b[i]);
        }
    }
}

/// One write is announced as it has to be.
proof fn one_write_is_announced(
    s: BarrierState,
    c: BarrierContext,
    src: Option<ObjectReference>,
    slot: usize,
)
    ensures
        announced(
            s,
            s.enqueue(c, src, slot),
            c,
            src,
            seq![slot],
            if s.unlog[slot] != 0 {
                seq![slot]
            } else {
                Seq::empty()
            },
        ),
{
    let f = s.enqueue(c, src, slot);
    let slots = seq![slot];
    dead_laws::wrapping_goes_up(s.counters.fast_count, 1);
    dead_laws::wrapping_goes_up(s.counters.slow_count, 1);
    dead_laws::wrapping_goes_up(s.slow_in_cc, 1);
    dead_laws::wrapping_goes_up(s.satb_inserts, 1);
    assert(slots[0] == slot);
    assert forall|a: usize| #[trigger] slots.contains(a) <==> a == slot by {}
    one_more(s.inc_packets, s.incs, slot);
    assert(all_of(s.inc_packets, s.incs) + seq![slot] =~= all_of(s.inc_packets, s.incs).push(slot));
    let none = Seq::<ObjectReference>::empty();
    assert(held_by(c.fields, Seq::empty()) =~= none);
    assert(slots.drop_last() =~= Seq::<usize>::empty());
    assert(all_of(s.lazy_dec_packets, s.decs) + none =~= all_of(s.lazy_dec_packets, s.decs));
    assert(all_of(s.stw_dec_packets, s.decs) + none =~= all_of(s.stw_dec_packets, s.decs));
    assert(all_of(s.inc_packets, s.incs) + Seq::<usize>::empty() =~= all_of(
        s.inc_packets,
        s.incs,
    ));
    if let Some(o) = c.fields[slot] {
        one_more(s.lazy_dec_packets, s.decs, o);
        one_more(s.stw_dec_packets, s.decs, o);
        assert(held_by(c.fields, slots) =~= seq![o]);
        assert(all_of(s.lazy_dec_packets, s.decs) + seq![o] =~= all_of(
            s.lazy_dec_packets,
            s.decs,
        ).push(o));
        assert(all_of(s.stw_dec_packets, s.decs) + seq![o] =~= all_of(
            s.stw_dec_packets,
            s.decs,
        ).push(o));
    }
}

/// What slots hold, taken in two parts.
proof fn held_by_both(
    fields: Map<usize, Option<ObjectReference>>,
    a: Seq<usize>,
    b: Seq<usize>,
)
    ensures
        held_by(fields, a + b) == held_by(fields, a) + held_by(fields, b),
    decreases b.len(),
{
    if b.len() == 0 {
        assert(a + b =~= a);
        assert(held_by(fields, a) + held_by(fields, b) =~= held_by(fields, a));
    } else {
        assert((a + b).drop_last() =~= a + b.drop_last());
        held_by_both(fields, a, b.drop_last());
        assert(held_by(fields, a + b) =~= held_by(fields, a) + held_by(fields, b));
    }
}

/// Writes are announced as they have to be.
proof fn writes_are_announced(
    s: BarrierState,
    c: BarrierContext,
    src: Option<ObjectReference>,
    slots: Seq<usize>,
)
    ensures
        announced(
            s,
            s.enqueue_all(c, src, slots),
            c,
            src,
            slots,
            first_writes(s.unlog, slots),
        ),
    decreases slots.len(),
{
    if slots.len() == 0 {
        dead_laws::wrapping_goes_up(s.counters.fast_count, 0);
        dead_laws::wrapping_goes_up(s.counters.slow_count, 0);
        dead_laws::wrapping_goes_up(s.slow_in_cc, 0);
        dead_laws::wrapping_goes_up(s.satb_inserts, 0);
        let none = Seq::<ObjectReference>::empty();
        assert(held_by(c.fields, Seq::empty()) =~= none);
        assert(all_of(s.lazy_dec_packets, s.decs) + none =~= all_of(s.lazy_dec_packets, s.decs));
        assert(all_of(s.stw_dec_packets, s.decs) + none =~= all_of(s.stw_dec_packets, s.decs));
        assert(all_of(s.inc_packets, s.incs) + Seq::<usize>::empty() =~= all_of(
            s.inc_packets,
            s.incs,
        ));
    } else {
        let q = slots.drop_last();
        let x = slots.last();
        let v = s.enqueue_all(c, src, q);
        let f = s.enqueue_all(c, src, slots);
        let p = first_writes(s.unlog, q);
        let fresh = first_writes(s.unlog, slots);
        let last = if v.unlog[x] != 0 {
            seq![x]
        } else {
            Seq::empty()
        };
        writes_are_announced(s, c, src, q);
        one_write_is_announced(v, c, src, x);
        first_writes_are_distinct(s.unlog, q);
        first_writes_are_distinct(s.unlog, slots);
        assert(fresh =~= p + last);
        held_by_both(c.fields, p, last);
        let watched = c.in_cycle_collection && (src matches Some(o) ==> c.color[(o.addr
            / 16) as usize] != 0);
        let (n, m) = (p.len(), last.len());
        counted_twice(
            s.counters.fast_count,
            v.counters.fast_count,
            f.counters.fast_count,
            c.measuring,
            q.len(),
            1,
        );
        counted_twice(
            s.counters.slow_count,
            v.counters.slow_count,
            f.counters.slow_count,
            c.measuring,
            n,
            m,
        );
        counted_twice(s.slow_in_cc, v.slow_in_cc, f.slow_in_cc, c.in_cycle_collection, n, m);
        counted_twice(s.satb_inserts, v.satb_inserts, f.satb_inserts, watched, n, m);
        assert(last.len() == 1 ==> last[0] == x);
        assert forall|a: usize| #[trigger] slots.contains(a) <==> q.contains(a) || a == x by {
            if q.contains(a) {
                let j = choose|j: int| 0 <= j < q.len() && q[j] == a;
                assert(slots[j] == a);
            }
            assert(slots[slots.len() - 1] == x);
            if slots.contains(a) && a != x {
                let j = choose|j: int| 0 <= j < slots.len() && slots[j] == a;
                assert(q[j] == a);
            }
        }
        assert forall|a: usize| #[trigger] seq![x].contains(a) <==> a == x by {
            assert(seq![x][0] == x);
        }
        assert forall|a: usize| #[trigger]
            f.unlog[a] == (if slots.contains(a) {
                0
            } else {
                s.unlog[a]
            }) by {
            assert(v.unlog[a] == (if q.contains(a) {
                0
            } else {
                s.unlog[a]
            }));
        }
        assert forall|a: usize| #[trigger] fresh.contains(a) <==> p.contains(a) || last.contains(
            a,
        ) by {
            if p.contains(a) {
                let i = choose|i: int| 0 <= i < p.len() && p[i] == a;
                assert(fresh[i] == a);
            }
            if last.contains(a) {
                assert(fresh[p.len() as int] == a);
            }
        }
        assert(all_of(s.inc_packets, s.incs) + p + last =~= all_of(s.inc_packets, s.incs) + fresh);
        let hp = held_by(c.fields, p);
        let hl = held_by(c.fields, last);
        assert(all_of(s.lazy_dec_packets, s.decs) + hp + hl =~= all_of(s.lazy_dec_packets, s.decs)
            + (hp + hl));
        assert(all_of(s.stw_dec_packets, s.decs) + hp + hl =~= all_of(s.stw_dec_packets, s.decs)
            + (hp + hl));
        if s.incs.len() < 4096 {
            full_packets_add_up(s.inc_packets, v.inc_packets, f.inc_packets);
        }
        if s.decs.len() < 4096 {
            full_packets_add_up(s.lazy_dec_packets, v.lazy_dec_packets, f.lazy_dec_packets);
            full_packets_add_up(s.stw_dec_packets, v.stw_dec_packets, f.stw_dec_packets);
        }
        assert forall|a: usize| #[trigger]
            f.satb.dom().contains(a) <==> s.satb.dom().contains(a) || (c.in_cycle_collection && (
            src matches Some(o) ==> c.color[(o.addr / 16) as usize] != 0)) && fresh.contains(a) by {
            assert(v.satb.dom().contains(a) <==> s.satb.dom().contains(a)
                || (c.in_cycle_collection && (src matches Some(o) ==> c.color[(o.addr
                / 16) as usize] != 0)) && p.contains(a));
        }
        assert forall|a: usize| #[trigger]
            f.satb[a] == (if (c.in_cycle_collection && (src matches Some(o) ==> c.color[(o.addr
                / 16) as usize] != 0)) && fresh.contains(a) {
                c.fields[a]
            } else {
                s.satb[a]
            }) by {
            assert(v.satb[a] == (if (c.in_cycle_collection && (src matches Some(o)
                ==> c.color[(o.addr / 16) as usize] != 0)) && p.contains(a) {
                c.fields[a]
            } else {
                s.satb[a]
            }));
        }
    }
}

/// Announcing writes to slots, of a known object or of a region of memory, logs
/// every one of them and no other.
///
/// Each slot that was not logged before is queued once for the new value, and
/// what it holds once for the lost reference. While cycle collection is under
/// way, what it holds is recorded, unless the object that it belongs to is known
/// and done with. Nothing else is recorded, and what was recorded before stays.
pub proof fn announced_slots_are_logged(
    b0: LXRFieldBarrierSemantics,
    l0: Lxr,
    b1: LXRFieldBarrierSemantics,
    l1: Lxr,
    heap: Heap,
    src: Option<ObjectReference>,
    slots: Seq<usize>,
)
    requires
        l1.same_but_barrier_state(l0),
        b1.state(l1) == b0.state(l0).enqueue_all(l0.barrier_context(heap), src, slots),
    ensures
        ({
            let fresh = first_writes(l0.tables.field_unlog@, slots);
            let lost = held_by(heap.fields@, fresh);
            let watched = l0.in_cycle_collection && (src matches Some(o)
                ==> l0.tables.obj_color@[(o.addr / 16) as usize] != 0);
            let measuring = l0.takerate_measurement && l0.inside_harness;
            &&& forall|a: usize| #[trigger]
                l1.tables.field_unlog@[a] == (if slots.contains(a) {
                    0
                } else {
                    l0.tables.field_unlog@[a]
                })
            &&& forall|a: usize| #[trigger]
                l1.satb_map@.dom().contains(a) <==> l0.satb_map@.dom().contains(a) || watched
                    && fresh.contains(a)
            &&& forall|a: usize| #[trigger]
                l1.satb_map@[a] == (if watched && fresh.contains(a) {
                    heap.fields@[a]
                } else {
                    l0.satb_map@[a]
                })
            &&& all_of(buffer::deep(l1.inc_packets@), b1.incs@) == all_of(
                buffer::deep(l0.inc_packets@),
                b0.incs@,
            ) + fresh
            &&& l0.lazy_decrements ==> all_of(buffer::deep(l1.lazy_dec_packets@), b1.decs@)
                == all_of(buffer::deep(l0.lazy_dec_packets@), b0.decs@) + lost
            &&& l0.lazy_decrements ==> buffer::deep(l1.stw_dec_packets@) == buffer::deep(
                l0.stw_dec_packets@,
            )
            &&& !l0.lazy_decrements ==> all_of(buffer::deep(l1.stw_dec_packets@), b1.decs@)
                == all_of(buffer::deep(l0.stw_dec_packets@), b0.decs@) + lost
            &&& !l0.lazy_decrements ==> buffer::deep(l1.lazy_dec_packets@) == buffer::deep(
                l0.lazy_dec_packets@,
            )
            &&& b0.incs@.len() < 4096 ==> b1.incs@.len() < 4096 && full_packets_added(
                buffer::deep(l0.inc_packets@),
                buffer::deep(l1.inc_packets@),
            )
            &&& b0.decs@.len() < 4096 ==> b1.decs@.len() < 4096 && full_packets_added(
                buffer::deep(l0.lazy_dec_packets@),
                buffer::deep(l1.lazy_dec_packets@),
            ) && full_packets_added(
                buffer::deep(l0.stw_dec_packets@),
                buffer::deep(l1.stw_dec_packets@),
            )
            &&& l1.tables.inc_buffer_size == up_to_limit(
                l0.tables.inc_buffer_size + total(buffer::deep(l1.inc_packets@)) - total(
                    buffer::deep(l0.inc_packets@),
                ),
            )
            &&& counted_on(l0.counters.fast_count, l1.counters.fast_count, measuring, slots.len())
            &&& counted_on(l0.counters.slow_count, l1.counters.slow_count, measuring, fresh.len())
            &&& counted_on(b0.slow_in_cc, b1.slow_in_cc, l0.in_cycle_collection, fresh.len())
            &&& counted_on(b0.satb_inserts, b1.satb_inserts, watched, fresh.len())
            &&& l1.counters.barrier_slow_in_cc == l0.counters.barrier_slow_in_cc
            &&& l1.counters.barrier_satb_inserts == l0.counters.barrier_satb_inserts
            &&& nothing_else_changed(l0, l1)
        }),
{
    writes_are_announced(b0.state(l0), l0.barrier_context(heap), src, slots);
}

/// The same for one slot.
pub proof fn announced_slot_is_logged(
    b0: LXRFieldBarrierSemantics,
    l0: Lxr,
    b1: LXRFieldBarrierSemantics,
    l1: Lxr,
    heap: Heap,
    src: Option<ObjectReference>,
    slot: usize,
)
    requires
        l1.same_but_barrier_state(l0),
        b1.state(l1) == b0.state(l0).enqueue(l0.barrier_context(heap), src, slot),
    ensures
        b1.state(l1) == b0.state(l0).enqueue_all(l0.barrier_context(heap), src, seq![slot]),
        forall|a: usize| #[trigger]
            l1.tables.field_unlog@[a] == (if a == slot {
                0
            } else {
                l0.tables.field_unlog@[a]
            }),
        l0.tables.field_unlog@[slot] != 0 && l0.in_cycle_collection && (src matches Some(o)
            ==> l0.tables.obj_color@[(o.addr / 16) as usize] != 0) ==> l1.satb_map@
            == l0.satb_map@.insert(slot, heap.fields@[slot]),
        !(l0.tables.field_unlog@[slot] != 0 && l0.in_cycle_collection && (src matches Some(o)
            ==> l0.tables.obj_color@[(o.addr / 16) as usize] != 0)) ==> l1.satb_map@
            == l0.satb_map@,
        l0.tables.field_unlog@[slot] != 0 ==> all_of(buffer::deep(l1.inc_packets@), b1.incs@)
            == all_of(buffer::deep(l0.inc_packets@), b0.incs@).push(slot),
        l0.tables.field_unlog@[slot] == 0 ==> b1.incs@ == b0.incs@ && b1.decs@ == b0.decs@,
        nothing_else_changed(l0, l1),
{
    let s = b0.state(l0);
    let c = l0.barrier_context(heap);
    assert(seq![slot].drop_last() =~= Seq::<usize>::empty());
    assert(s.enqueue_all(c, src, Seq::empty()) == s);
    one_write_is_announced(s, c, src, slot);
    let t = s.enqueue(c, src, slot);
    assert(seq![slot][0] == slot);
    assert forall|a: usize| #[trigger] seq![slot].contains(a) <==> a == slot by {}
    let fresh = if s.unlog[slot] != 0 {
        seq![slot]
    } else {
        Seq::empty()
    };
    let watched = c.in_cycle_collection && (src matches Some(o) ==> c.color[(o.addr / 16) as usize]
        != 0);
    assert(t.satb =~= (if watched && s.unlog[slot] != 0 {
        s.satb.insert(slot, c.fields[slot])
    } else {
        s.satb
    })) by {
        assert forall|a: usize|
            t.satb.dom().contains(a) <==> s.satb.dom().contains(a) || watched && fresh.contains(
                a,
            ) by {}
    }
    assert(all_of(s.inc_packets, s.incs) + seq![slot] =~= all_of(s.inc_packets, s.incs).push(slot));
}

/// Whether only what barriers write to has changed.
pub open spec fn nothing_else_changed(old: Lxr, new: Lxr) -> bool {
    &&& new.tables.rc == old.tables.rc
    &&& new.tables.overflow_rc == old.tables.overflow_rc
    &&& new.tables.strong_rc == old.tables.strong_rc
    &&& new.tables.obj_color == old.tables.obj_color
    &&& new.tables.candidates_status == old.tables.candidates_status
    &&& new.tables.rc_straddle_lines == old.tables.rc_straddle_lines
    &&& new.tables.sanity_dead_cycle_count == old.tables.sanity_dead_cycle_count
    &&& new.rc_with_overflow == old.rc_with_overflow
    &&& new.candidate_pools == old.candidate_pools
    &&& new.curr_vec == old.curr_vec
    &&& new.in_cycle_collection == old.in_cycle_collection
    &&& new.current_pause == old.current_pause
    &&& new.possibly_dead_mature_blocks == old.possibly_dead_mature_blocks
    &&& new.freed_large_objects == old.freed_large_objects
    &&& new.overwritten_objects == old.overwritten_objects
    &&& new.stat == old.stat
    &&& new.graph_reporter == old.graph_reporter
    &&& new.graph_report_mark == old.graph_report_mark
    &&& new.finished_reports == old.finished_reports
    &&& new.lazy_decrements == old.lazy_decrements
    &&& new.rc_sanity_objects == old.rc_sanity_objects
    &&& new.takerate_measurement == old.takerate_measurement
    &&& new.inside_harness == old.inside_harness
}

/// A running collection goes on seeing every slot as it was: announcing a write
/// to slots of objects that it may still look at changes no old value.
pub proof fn old_values_stay(
    s: BarrierState,
    c: BarrierContext,
    src: Option<ObjectReference>,
    slots: Seq<usize>,
    heap: Heap,
    tag: u8,
    a: usize,
)
    requires
        c.fields == heap.fields@,
        c.in_cycle_collection,
        src matches Some(o) ==> c.color[(o.addr / 16) as usize] != 0,
        s.unlog[a] <= 1,
    ensures
        ({
            let f = s.enqueue_all(c, src, slots);
            (Snapshot { heap, unlog: f.unlog, satb: f.satb, tag }).old_value(a) == (Snapshot {
                heap,
                unlog: s.unlog,
                satb: s.satb,
                tag,
            }).old_value(a)
        }),
{
    let f = s.enqueue_all(c, src, slots);
    writes_are_announced(s, c, src, slots);
    first_writes_are_distinct(s.unlog, slots);
    assert(f.unlog[a] == (if slots.contains(a) {
        0
    } else {
        s.unlog[a]
    }));
    assert(f.satb[a] == (if first_writes(s.unlog, slots).contains(a) {
        c.fields[a]
    } else {
        s.satb[a]
    }));
}

/// Whether what waited became one packet behind the others, if there was anything.
pub open spec fn handed_over<T>(old: Seq<Seq<T>>, new: Seq<Seq<T>>, waiting: Seq<T>) -> bool {
    new == (if waiting.len() > 0 {
        old.push(waiting)
    } else {
        old
    })
}

/// Handing over empties every queue and counter, and loses nothing of what
/// waited.
pub proof fn flush_hands_everything_over(
    b0: LXRFieldBarrierSemantics,
    l0: Lxr,
    b1: LXRFieldBarrierSemantics,
    l1: Lxr,
)
    requires
        l1.same_but_barrier_state(l0),
        b1.state(l1) == b0.state(l0).flush_stats().flush_incs().flush_decs(l0.lazy_decrements),
    ensures
        b1.incs@.len() == 0,
        b1.decs@.len() == 0,
        b1.slow_in_cc == 0,
        b1.satb_inserts == 0,
        buffer::deep(l1.inc_packets@).flatten() == all_of(buffer::deep(l0.inc_packets@), b0.incs@),
        l0.lazy_decrements ==> buffer::deep(l1.lazy_dec_packets@).flatten() == all_of(
            buffer::deep(l0.lazy_dec_packets@),
            b0.decs@,
        ) && buffer::deep(l1.stw_dec_packets@) == buffer::deep(l0.stw_dec_packets@),
        !l0.lazy_decrements ==> buffer::deep(l1.stw_dec_packets@).flatten() == all_of(
            buffer::deep(l0.stw_dec_packets@),
            b0.decs@,
        ) && buffer::deep(l1.lazy_dec_packets@) == buffer::deep(l0.lazy_dec_packets@),
        l1.tables.inc_buffer_size == up_to_limit(l0.tables.inc_buffer_size + b0.incs@.len()),
        handed_over(buffer::deep(l0.inc_packets@), buffer::deep(l1.inc_packets@), b0.incs@),
        l0.lazy_decrements ==> handed_over(
            buffer::deep(l0.lazy_dec_packets@),
            buffer::deep(l1.lazy_dec_packets@),
            b0.decs@,
        ),
        !l0.lazy_decrements ==> handed_over(
            buffer::deep(l0.stw_dec_packets@),
            buffer::deep(l1.stw_dec_packets@),
            b0.decs@,
        ),
        counted_on(
            l0.counters.barrier_slow_in_cc,
            l1.counters.barrier_slow_in_cc,
            true,
            b0.slow_in_cc as nat,
        ),
        counted_on(
            l0.counters.barrier_satb_inserts,
            l1.counters.barrier_satb_inserts,
            true,
            b0.satb_inserts as nat,
        ),
        l1.counters.fast_count == l0.counters.fast_count,
        l1.counters.slow_count == l0.counters.slow_count,
        l1.satb_map@ == l0.satb_map@,
        l1.tables.field_unlog@ == l0.tables.field_unlog@,
        nothing_else_changed(l0, l1),
{
    let s = b0.state(l0);
    dead_laws::wrapping_goes_up(s.counters.barrier_slow_in_cc, s.slow_in_cc);
    dead_laws::wrapping_goes_up(s.counters.barrier_satb_inserts, s.satb_inserts);
    s.inc_packets.lemma_flatten_push(s.incs);
    s.lazy_dec_packets.lemma_flatten_push(s.decs);
    s.stw_dec_packets.lemma_flatten_push(s.decs);
    assert(s.incs.len() == 0 ==> all_of(s.inc_packets, s.incs) =~= s.inc_packets.flatten());
    assert(s.decs.len() == 0 ==> all_of(s.lazy_dec_packets, s.decs)
        =~= s.lazy_dec_packets.flatten());
    assert(s.decs.len() == 0 ==> all_of(s.stw_dec_packets, s.decs)
        =~= s.stw_dec_packets.flatten());
}

} // verus!
