//! Whether a cycle collection can begin.

use crate::plan::lxr::buffer;
use crate::plan::lxr::buffer::BufferPool;
use crate::plan::lxr::cycle_model::Snapshot;
use crate::plan::lxr::cycle_phases;
use crate::plan::lxr::gc_work;
use crate::plan::lxr::global::Lxr;
use crate::util::address::ObjectReference;
use crate::util::rc::{GREY, UNLOGGED_VALUE};
use crate::vm::heap::Heap;
use vstd::prelude::*;

verus! {

/// Whether the pools are as a collection needs them, and no object that is not
/// black has a logged slot.
pub open spec fn is_ready(heap: Heap, lxr: Lxr) -> bool {
    &&& gc_work::pools_ready(lxr, heap)
    &&& (Snapshot { satb: Map::empty(), ..lxr.snapshot(heap) }).covers(lxr.cycle_state().color)
}

/// Whether every object of the buffers is in the heap.
pub open spec fn all_known(heap: Heap, b: Seq<Seq<ObjectReference>>) -> bool {
    forall|i: int, j: int|
        0 <= i < b.len() && 0 <= j < b[i].len() ==> heap.contains(#[trigger] b[i][j])
}

/// Whether every object of the buffers is in the heap.
fn knows_all(heap: &Heap, buffers: &Vec<Vec<ObjectReference>>) -> (r: bool)
    requires
        heap.wf(),
    ensures
        r == all_known(*heap, buffer::deep(buffers@)),
{
    let ghost b = buffer::deep(buffers@);
    let mut i: usize = 0;
    while i < buffers.len()
        invariant
            heap.wf(),
            b == buffer::deep(buffers@),
            i <= buffers@.len(),
            forall|k: int, j: int|
                0 <= k < i && 0 <= j < b[k].len() ==> heap.contains(#[trigger] b[k][j]),
        decreases buffers@.len() - i,
    {
        let mut j: usize = 0;
        while j < buffers[i].len()
            invariant
                heap.wf(),
                b == buffer::deep(buffers@),
                i < buffers@.len(),
                j <= buffers@[i as int]@.len(),
                forall|k: int, l: int|
                    0 <= k < i && 0 <= l < b[k].len() ==> heap.contains(#[trigger] b[k][l]),
                forall|l: int| 0 <= l < j ==> heap.contains(#[trigger] b[i as int][l]),
            decreases buffers@[i as int]@.len() - j,
        {
            if !heap.has(buffers[i][j]) {
                assert(!heap.contains(b[i as int][j as int]));
                return false;
            }
            j = j + 1;
        }
        i = i + 1;
    }
    true
}

/// How many elements the buffers have together with `start` others, if that is
/// a number that can be counted.
fn total_len(buffers: &Vec<Vec<ObjectReference>>, start: usize) -> (r: Option<usize>)
    ensures
        match r {
            Some(n) => n == start + buffer::deep(buffers@).flatten().len(),
            None => start + buffer::deep(buffers@).flatten().len() > usize::MAX,
        },
{
    let ghost b = buffer::deep(buffers@);
    let mut total: usize = start;
    let mut i: usize = 0;
    assert(b.take(0).flatten() =~= Seq::<ObjectReference>::empty());
    while i < buffers.len()
        invariant
            b == buffer::deep(buffers@),
            i <= buffers@.len(),
            total == start + b.take(i as int).flatten().len(),
        decreases buffers@.len() - i,
    {
        proof {
            assert(b.take(i + 1) =~= b.take(i as int).push(b[i as int]));
            b.take(i as int).lemma_flatten_push(b[i as int]);
            vstd::seq_lib::lemma_flatten_concat(b.take(i + 1), b.skip(i + 1));
            assert(b.take(i + 1) + b.skip(i + 1) =~= b);
        }
        match total.checked_add(buffers[i].len()) {
            Some(n) => {
                total = n;
            },
            None => {
                return None;
            },
        }
        i = i + 1;
    }
    assert(b.take(b.len() as int) =~= b);
    Some(total)
}

/// Whether full buffers are full, and the others neither full nor empty.
fn is_well_formed(pool: &BufferPool<ObjectReference>) -> (r: bool)
    ensures
        r == pool@.wf(),
{
    if pool.buffer_capacity == 0 {
        return false;
    }
    let mut i: usize = 0;
    while i < pool.completed.len()
        invariant
            pool.buffer_capacity > 0,
            i <= pool.completed@.len(),
            forall|k: int|
                #![trigger pool@.completed[k]]
                0 <= k < i ==> pool@.completed[k].len() == pool@.capacity,
        decreases pool.completed@.len() - i,
    {
        if pool.completed[i].len() != pool.buffer_capacity {
            assert(pool@.completed[i as int].len() != pool@.capacity);
            return false;
        }
        i = i + 1;
    }
    let mut j: usize = 0;
    while j < pool.available.len()
        invariant
            pool.buffer_capacity > 0,
            j <= pool.available@.len(),
            forall|k: int|
                #![trigger pool@.completed[k]]
                0 <= k < pool@.completed.len() ==> pool@.completed[k].len() == pool@.capacity,
            forall|k: int|
                #![trigger pool@.available[k]]
                0 <= k < j ==> 0 < pool@.available[k].len() < pool@.capacity,
        decreases pool.available@.len() - j,
    {
        let n: usize = pool.available[j].len();
        if n == 0 || n >= pool.buffer_capacity {
            assert(!(0 < pool@.available[j as int].len() < pool@.capacity));
            return false;
        }
        j = j + 1;
    }
    true
}

/// Whether the objects that are in either list of buffers are in the heap.
proof fn known_in_both(c: Snapshot, a: Seq<Seq<ObjectReference>>, b: Seq<Seq<ObjectReference>>)
    ensures
        cycle_phases::all_in_heap(c, a + b) == (all_known(c.heap, a) && all_known(c.heap, b)),
{
    if cycle_phases::all_in_heap(c, a + b) {
        assert forall|i: int, j: int| 0 <= i < a.len() && 0 <= j < a[i].len() implies c.heap.contains(
            #[trigger] a[i][j],
        ) by {
            assert(c.heap.contains((a + b)[i][j]));
        }
        assert forall|i: int, j: int| 0 <= i < b.len() && 0 <= j < b[i].len() implies c.heap.contains(
            #[trigger] b[i][j],
        ) by {
            assert(c.heap.contains((a + b)[a.len() + i][j]));
        }
    }
    if all_known(c.heap, a) && all_known(c.heap, b) {
        assert forall|i: int, j: int|
            0 <= i < (a + b).len() && 0 <= j < (a + b)[i].len() implies c.heap.contains(
            #[trigger] (a + b)[i][j],
        ) by {
            if i < a.len() {
                assert(c.heap.contains(a[i][j]));
            } else {
                assert(c.heap.contains(b[i - a.len()][j]));
            }
        }
    }
}

/// Whether every object that is not black has every slot unlogged.
fn rest_is_unlogged(heap: &Heap, lxr: &Lxr) -> (r: bool)
    requires
        heap.wf(),
    ensures
        r == (Snapshot { satb: Map::empty(), ..lxr.snapshot(*heap) }).covers(
            lxr.cycle_state().color,
        ),
{
    let ghost c = Snapshot { satb: Map::empty(), ..lxr.snapshot(*heap) };
    let ghost color = lxr.cycle_state().color;
    let mut k: usize = 0;
    while k < heap.objects.len()
        invariant
            heap.wf(),
            color == lxr.cycle_state().color,
            c == (Snapshot { satb: Map::empty(), ..lxr.snapshot(*heap) }),
            k <= heap.objects@.len(),
            forall|i: int, j: int|
                #![trigger heap.objects@[i].slots@[j]]
                0 <= i < k && 0 <= j < heap.objects@[i].slots@.len()
                    && color[heap.objects@[i].object.granule()] >= 2
                    ==> c.unlog[heap.objects@[i].slots@[j]] == 1,
        decreases heap.objects@.len() - k,
    {
        if lxr.color(heap.objects[k].object) >= GREY {
            let mut j: usize = 0;
            while j < heap.objects[k].slots.len()
                invariant
                    heap.wf(),
                    color == lxr.cycle_state().color,
                    c == (Snapshot { satb: Map::empty(), ..lxr.snapshot(*heap) }),
                    k < heap.objects@.len(),
                    color[heap.objects@[k as int].object.granule()] >= 2,
                    j <= heap.objects@[k as int].slots@.len(),
                    forall|l: int|
                        0 <= l < j ==> c.unlog[#[trigger] heap.objects@[k as int].slots@[l]] == 1,
                decreases heap.objects@[k as int].slots@.len() - j,
            {
                let slot: usize = heap.objects[k].slots[j];
                if lxr.tables.field_unlog.load(slot) != UNLOGGED_VALUE {
                    proof {
                        assert(c.heap.objects@[k as int].slots@[j as int] == slot);
                        assert(!c.satb.dom().contains(slot));
                        assert(!c.covers(color));
                    }
                    return false;
                }
                j = j + 1;
            }
        }
        k = k + 1;
    }
    true
}

/// Whether a cycle collection can begin: the pools hold objects of the heap
/// only, and no object that is not black has a logged slot.
pub fn ready_to_collect(heap: &Heap, lxr: &Lxr) -> (r: bool)
    requires
        heap.wf(),
        lxr.wf(),
    ensures
        r == is_ready(*heap, *lxr),
{
    let ghost c = lxr.snapshot(*heap);
    let ghost pools = lxr.candidate_pools@;
    let mut total: usize = 0;
    let mut p: usize = 0;
    while p < 3
        invariant
            heap.wf(),
            lxr.wf(),
            c == lxr.snapshot(*heap),
            pools == lxr.candidate_pools@,
            pools.len() == 3,
            p <= 3,
            total == total_of(pools, p as int),
            forall|q: int| 0 <= q < p ==> (#[trigger] pools[q])@.wf(),
            forall|q: int|
                0 <= q < p ==> cycle_phases::all_in_heap(c, gc_work::drained((#[trigger] pools[q])@)),
        decreases 3 - p,
    {
        let pool = &lxr.candidate_pools[p];
        proof {
            known_in_both(c, pool@.completed, pool@.available);
            vstd::seq_lib::lemma_flatten_concat(pool@.completed, pool@.available);
            totals_grow(pools, p + 1);
        }
        if !is_well_formed(pool) || !knows_all(heap, &pool.completed) || !knows_all(
            heap,
            &pool.available,
        ) {
            assert(!(pools[p as int]@.wf() && cycle_phases::all_in_heap(
                c,
                gc_work::drained(pools[p as int]@),
            )));
            return false;
        }
        match total_len(&pool.completed, total) {
            Some(n) => match total_len(&pool.available, n) {
                Some(m) => {
                    total = m;
                },
                None => {
                    return false;
                },
            },
            None => {
                return false;
            },
        }
        p = p + 1;
    }
    proof {
        totals_grow(pools, 3);
    }
    rest_is_unlogged(heap, lxr)
}

/// How many elements the first `n` pools have.
pub open spec fn total_of(pools: Seq<BufferPool<ObjectReference>>, n: int) -> nat
    decreases n,
{
    if n <= 0 {
        0
    } else {
        total_of(pools, n - 1) + gc_work::drained(pools[n - 1]@).flatten().len()
    }
}

/// The three pools have at least what the first ones have.
proof fn totals_grow(pools: Seq<BufferPool<ObjectReference>>, n: int)
    requires
        0 <= n <= 3,
    ensures
        total_of(pools, n) <= total_of(pools, 3),
        total_of(pools, 3) == gc_work::drained(pools[0]@).flatten().len() + gc_work::drained(
            pools[1]@,
        ).flatten().len() + gc_work::drained(pools[2]@).flatten().len(),
{
    reveal_with_fuel(total_of, 4);
}

} // verus!
