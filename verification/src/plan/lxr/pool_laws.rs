//! How buffers move between a pool and its producers, and how walks go over what
//! came out.

use crate::plan::lxr::buffer;
use crate::plan::lxr::buffer::{
    BufferPool, FinalBuffers, FinalIterMut, LocalBuffer, PoolView, Producer,
};
use crate::plan::lxr::gc_work;
use crate::util::address::ObjectReference;
use vstd::prelude::*;

verus! {

/// A pool is seen as its buffers, full and partly filled, and how many elements make
/// one full; a producer as what it has not handed over.
pub proof fn pool_is_seen_as_its_buffers<T>(
    pool: BufferPool<T>,
    local: LocalBuffer<T>,
    taken: FinalBuffers<T>,
)
    ensures
        pool@.capacity == pool.buffer_capacity,
        pool@.completed.len() == pool.completed@.len(),
        forall|i: int|
            #![trigger pool.completed@[i]]
            0 <= i < pool.completed@.len() ==> pool@.completed[i] == pool.completed@[i]@,
        pool@.available.len() == pool.available@.len(),
        forall|i: int|
            #![trigger pool.available@[i]]
            0 <= i < pool.available@.len() ==> pool@.available[i] == pool.available@[i]@,
        local@ == local.current@,
        taken@.len() == taken.buffers@.len(),
        forall|i: int|
            #![trigger taken.buffers@[i]]
            0 <= i < taken.buffers@.len() ==> taken@[i] == taken.buffers@[i]@,
        buffer::producer(pool, local).pool == pool@,
        buffer::producer(pool, local).current == local.current@,
{
}

/// A pool is well-formed exactly if full buffers are full and the others neither
/// full nor empty; with a producer, exactly if its buffer is not full either.
pub proof fn well_formed_pools<T>(p: Producer<T>)
    ensures
        p.pool.wf() <==> p.pool.capacity >= 1 && (forall|i: int|
            #![trigger p.pool.completed[i]]
            0 <= i < p.pool.completed.len() ==> p.pool.completed[i].len() == p.pool.capacity) && (
        forall|i: int|
            #![trigger p.pool.available[i]]
            0 <= i < p.pool.available.len() ==> 1 <= p.pool.available[i].len()
                <= p.pool.capacity - 1),
        p.wf() <==> p.pool.wf() && p.current.len() < p.pool.capacity,
        p.pool.elements() == p.pool.completed.flatten() + p.pool.available.flatten(),
        p.elements() == p.pool.completed.flatten() + p.pool.available.flatten() + p.current,
{
}

/// A producer goes on with the buffer that was left last, and with an empty one if
/// none was left.
pub proof fn producer_goes_on_with_last_buffer<T>(p: PoolView<T>, a: Seq<T>)
    ensures
        ({
            let more = PoolView { available: p.available.push(a), ..p };
            &&& more.acquire().current == a
            &&& more.acquire().pool == p
        }),
        p.available.len() == 0 ==> p.acquire().current.len() == 0 && p.acquire().pool == p,
{
    assert(p.available.push(a).drop_last() =~= p.available);
}

/// A push goes to the end of the producer's buffer. The push that fills it hands it
/// over, behind the full buffers of the pool, and the producer goes on with the
/// buffer that was left last.
pub proof fn full_buffer_is_handed_over<T>(p: Producer<T>, v: T)
    ensures
        p.current.len() + 1 != p.pool.capacity ==> p.push(v).current == p.current.push(v) && p.push(
            v,
        ).pool == p.pool,
        p.current.len() + 1 == p.pool.capacity ==> {
            let f = p.push(v);
            &&& f.pool.completed == p.pool.completed.push(p.current.push(v))
            &&& f.pool.capacity == p.pool.capacity
            &&& f.pool.available == p.pool.acquire().pool.available
            &&& f.current == p.pool.acquire().current
        },
{
}

/// Pushes follow each other. Into a pool without buffers that were left they go in
/// order: the full buffers and the producer's hold what was there, and what was
/// pushed behind it.
pub proof fn pushes_keep_their_order<T>(p: Producer<T>, vs: Seq<T>, v: T)
    requires
        p.wf(),
    ensures
        p.push_all(Seq::empty()) == p,
        p.push_all(vs.push(v)) == p.push_all(vs).push(v),
        p.pool.available.len() == 0 ==> p.push_all(vs).pool.available.len() == 0 && p.push_all(
            vs,
        ).pool.completed.flatten() + p.push_all(vs).current == p.pool.completed.flatten()
            + p.current + vs,
    decreases vs.len(),
{
    assert(vs.push(v).drop_last() =~= vs);
    if p.pool.available.len() == 0 {
        if vs.len() == 0 {
            assert(p.pool.completed.flatten() + p.current + vs =~= p.pool.completed.flatten()
                + p.current);
        } else {
            let q = p.push_all(vs.drop_last());
            pushes_keep_their_order(p, vs.drop_last(), v);
            let x = vs.last();
            let f = q.push(x);
            let whole = p.pool.completed.flatten() + p.current + vs;
            q.pool.completed.lemma_flatten_push(q.current.push(x));
            assert(f.pool.completed.flatten() + f.current =~= (q.pool.completed.flatten()
                + q.current).push(x));
            assert((p.pool.completed.flatten() + p.current + vs.drop_last()).push(x) =~= whole);
        }
    }
}

/// A producer that finishes leaves its buffer behind the others that were left,
/// unless it is empty.
pub proof fn finished_producer_leaves_its_buffer<T>(p: Producer<T>)
    ensures
        p.current.len() == 0 ==> p.close() == p.pool,
        p.current.len() > 0 ==> p.close().available == p.pool.available.push(p.current)
            && p.close().completed == p.pool.completed && p.close().capacity == p.pool.capacity,
{
}

/// What comes out of a pool are the full buffers and then the others, a drained pool
/// has neither, and a pool is filled by one producer that pushes and finishes.
pub proof fn pools_are_drained_and_filled(
    pool: PoolView<ObjectReference>,
    xs: Seq<ObjectReference>,
)
    ensures
        gc_work::drained(pool) == pool.completed + pool.available,
        gc_work::emptied(pool).completed.len() == 0,
        gc_work::emptied(pool).available.len() == 0,
        gc_work::emptied(pool).capacity == pool.capacity,
        gc_work::filled(pool, xs) == pool.acquire().push_all(xs).close(),
{
}

/// A walk goes on at the first place that holds an element: everything between is
/// the end of a buffer or an empty one.
pub proof fn walk_goes_on_at_next_element<T>(b: Seq<Seq<T>>, bi: int, ei: int)
    requires
        0 <= bi <= b.len(),
        0 <= ei,
    ensures
        ({
            let (bj, ej) = buffer::seek(b, bi, ei);
            &&& bi <= bj <= b.len()
            &&& bj == bi ==> ej == ei
            &&& bj > bi ==> ej == 0 && ei >= b[bi].len()
            &&& forall|k: int| bi < k < bj ==> (#[trigger] b[k]).len() == 0
            &&& bj < b.len() ==> ej < b[bj].len()
        }),
    decreases b.len() - bi,
{
    if bi < b.len() && ei >= b[bi].len() {
        walk_goes_on_at_next_element(b, bi + 1, 0);
        let (bj, ej) = buffer::seek(b, bi, ei);
        assert forall|k: int| bi < k < bj implies (#[trigger] b[k]).len() == 0 by {
            if k == bi + 1 {
                assert(0 >= b[bi + 1].len());
            }
        }
    }
}

/// What is left of a walk is the rest of its buffer and all buffers behind it.
pub proof fn rest_of_walk<T>(b: Seq<Seq<T>>, bi: int, ei: int)
    ensures
        0 <= bi < b.len() ==> buffer::pending(b, bi, ei) == b[bi].skip(ei) + b.skip(
            bi + 1,
        ).flatten(),
        !(0 <= bi < b.len()) ==> buffer::pending(b, bi, ei).len() == 0,
{
}

/// The last element takes the place of the one that was removed.
pub proof fn last_element_moves_up<T>(s: Seq<T>, i: int)
    requires
        0 <= i < s.len(),
    ensures
        buffer::swap_removed(s, i).len() == s.len() - 1,
        forall|j: int|
            #![trigger buffer::swap_removed(s, i)[j]]
            0 <= j < s.len() - 1 ==> buffer::swap_removed(s, i)[j] == (if j == i {
                s[s.len() - 1]
            } else {
                s[j]
            }),
{
}

/// Removing an element changes its buffer only. A buffer of one element goes with
/// it, and the last buffer takes its place.
pub proof fn element_is_removed<T>(b: Seq<Seq<T>>, bi: int, ei: int)
    requires
        0 <= bi < b.len(),
        0 <= ei < b[bi].len(),
    ensures
        b[bi].len() > 1 ==> buffer::removed_at(b, bi, ei) == b.update(
            bi,
            buffer::swap_removed(b[bi], ei),
        ),
        b[bi].len() == 1 ==> buffer::removed_at(b, bi, ei) == buffer::swap_removed(b, bi),
{
}

/// The buffers that a walk goes over.
pub open spec fn buffers_of<'a, T>(it: FinalIterMut<'a, T>) -> Seq<Seq<T>> {
    Seq::new(it.buffers@.len(), |i: int| it.buffers@[i]@)
}

/// A walk that can change what it visits begins its next step behind the current
/// element, and at its place if that was removed.
pub proof fn next_step_begins<'a, T>(it: FinalIterMut<'a, T>)
    ensures
        !it.removed_current ==> it.next_elem() == it.elem_idx + 1,
        it.removed_current ==> it.next_elem() == it.elem_idx,
        it.pending() == buffer::pending(
            buffers_of(it),
            it.buf_idx as int,
            it.next_elem(),
        ),
        it.wf() <==> it.elem_idx < usize::MAX && (it.buf_idx < buffers_of(it).len() ==> it.next_elem()
            <= buffers_of(it)[it.buf_idx as int].len()),
{
    assert(buffers_of(it) =~= buffer::deep(it.buffers@));
}

/// Folding goes from element to element.
pub proof fn fold_goes_in_order<S, T, F: Fn(S, T) -> S>(f: F, xs: Seq<T>, state: S, r: S) -> (states:
    Seq<S>)
    requires
        buffer::folded_by(f, xs, state, r),
    ensures
        states.len() == xs.len() + 1,
        states[0] == state,
        states[xs.len() as int] == r,
        forall|i: int|
            #![trigger states[i + 1]]
            0 <= i < xs.len() ==> f.ensures((states[i], xs[i]), states[i + 1]),
{
    let states = choose|states: Seq<S>|
        #![trigger states.last()]
        {
            &&& states.len() == xs.len() + 1
            &&& states[0] == state
            &&& states.last() == r
            &&& forall|i: int|
                #![trigger states[i + 1]]
                0 <= i < xs.len() ==> f.ensures((states[i], xs[i]), states[i + 1])
        };
    states
}

} // verus!
