//! What holds of whole histories of a pool of buffers, and of whole walks over
//! what came out of one.

use crate::plan::lxr::buffer;
use crate::plan::lxr::buffer::{PoolView, Producer};
use crate::plan::lxr::cycle_phases;
use vstd::prelude::*;

verus! {

/// What can happen to a pool. A handle goes by its number: the first handle that
/// is made has number 0, the next one number 1.
pub enum PoolEvent<T> {
    /// One more handle is made.
    Acquire,
    /// A value is pushed through the handle.
    Push(int, T),
    /// The handle is closed.
    Close(int),
}

/// A pool with all its handles.
#[verifier::ext_equal]
pub struct PoolRun<T> {
    /// The pool.
    pub pool: PoolView<T>,
    /// What each handle has not handed to the pool yet.
    pub held: Seq<Seq<T>>,
    /// Which handles are open.
    pub is_open: Seq<bool>,
}

impl<T> PoolRun<T> {
    /// The pool, seen by one of its handles.
    pub open spec fn producer(self, h: int) -> Producer<T> {
        Producer { pool: self.pool, current: self.held[h] }
    }

    /// Whether the event can happen: it uses an open handle only.
    pub open spec fn allows(self, e: PoolEvent<T>) -> bool {
        match e {
            PoolEvent::Acquire => true,
            PoolEvent::Push(h, _) => 0 <= h < self.held.len() && self.is_open[h],
            PoolEvent::Close(h) => 0 <= h < self.held.len() && self.is_open[h],
        }
    }

    /// The pool and its handles after the event.
    pub open spec fn after(self, e: PoolEvent<T>) -> PoolRun<T> {
        match e {
            PoolEvent::Acquire => {
                let p = self.pool.acquire();
                PoolRun {
                    pool: p.pool,
                    held: self.held.push(p.current),
                    is_open: self.is_open.push(true),
                }
            },
            PoolEvent::Push(h, v) => {
                let p = self.producer(h).push(v);
                PoolRun { pool: p.pool, held: self.held.update(h, p.current), ..self }
            },
            PoolEvent::Close(h) => PoolRun {
                pool: self.producer(h).close(),
                held: self.held.update(h, Seq::empty()),
                is_open: self.is_open.update(h, false),
            },
        }
    }

    /// Whether every handle is closed.
    pub open spec fn all_closed(self) -> bool {
        forall|h: int| 0 <= h < self.is_open.len() ==> !#[trigger] self.is_open[h]
    }

    /// The pool is well-formed, no handle has a full buffer, and a closed one has
    /// nothing.
    pub open spec fn wf(self) -> bool {
        &&& self.pool.wf()
        &&& self.held.len() == self.is_open.len()
        &&& forall|h: int|
            #![trigger self.held[h]]
            0 <= h < self.held.len() ==> self.held[h].len() < self.pool.capacity && (
            !self.is_open[h] ==> self.held[h].len() == 0)
    }
}

/// A pool that was just made or drained, without handles.
pub open spec fn fresh_pool<T>(capacity: nat) -> PoolRun<T> {
    PoolRun {
        pool: PoolView { capacity, completed: Seq::empty(), available: Seq::empty() },
        held: Seq::empty(),
        is_open: Seq::empty(),
    }
}

/// The pool and its handles after the events.
pub open spec fn run<T>(capacity: nat, events: Seq<PoolEvent<T>>) -> PoolRun<T>
    decreases events.len(),
{
    if events.len() == 0 {
        fresh_pool(capacity)
    } else {
        run(capacity, events.drop_last()).after(events.last())
    }
}

/// Whether the events can happen one after the other.
pub open spec fn can_happen<T>(capacity: nat, events: Seq<PoolEvent<T>>) -> bool
    decreases events.len(),
{
    events.len() == 0 || (can_happen(capacity, events.drop_last()) && run(
        capacity,
        events.drop_last(),
    ).allows(events.last()))
}

/// The values that the events push, in order.
pub open spec fn pushed<T>(events: Seq<PoolEvent<T>>) -> Seq<T>
    decreases events.len(),
{
    if events.len() == 0 {
        Seq::empty()
    } else {
        match events.last() {
            PoolEvent::Push(_, v) => pushed(events.drop_last()).push(v),
            _ => pushed(events.drop_last()),
        }
    }
}

/// The elements of one buffer and those of the others are all elements.
proof fn flatten_at<T>(b: Seq<Seq<T>>, i: int)
    requires
        0 <= i < b.len(),
    ensures
        b.flatten().to_multiset() == b.take(i).flatten().to_multiset().add(
            b[i].to_multiset(),
        ).add(b.skip(i + 1).flatten().to_multiset()),
{
    let here = seq![b[i]];
    let tail = b.skip(i + 1);
    assert(b =~= b.take(i) + (here + tail));
    vstd::seq_lib::lemma_flatten_concat(b.take(i), here + tail);
    vstd::seq_lib::lemma_flatten_concat(here, tail);
    here.lemma_flatten_one_element();
    vstd::seq_lib::lemma_multiset_commutative(b.take(i).flatten(), b[i] + tail.flatten());
    vstd::seq_lib::lemma_multiset_commutative(b[i], tail.flatten());
    assert(b.flatten().to_multiset() =~= b.take(i).flatten().to_multiset().add(
        b[i].to_multiset(),
    ).add(tail.flatten().to_multiset()));
}

/// Another buffer in the place of one puts its elements in the place of those.
proof fn flatten_update<T>(b: Seq<Seq<T>>, i: int, s: Seq<T>)
    requires
        0 <= i < b.len(),
    ensures
        b.update(i, s).flatten().to_multiset().add(b[i].to_multiset())
            == b.flatten().to_multiset().add(s.to_multiset()),
{
    let c = b.update(i, s);
    flatten_at(b, i);
    flatten_at(c, i);
    assert(c.take(i) =~= b.take(i));
    assert(c.skip(i + 1) =~= b.skip(i + 1));
    assert(c.flatten().to_multiset().add(b[i].to_multiset()) =~= b.flatten().to_multiset().add(
        s.to_multiset(),
    ));
}

/// What several producers push is, at every moment, in the pool or in the buffer
/// of one of them, each value as often as it was pushed.
pub proof fn every_value_is_somewhere<T>(capacity: nat, events: Seq<PoolEvent<T>>)
    requires
        capacity > 0,
        can_happen(capacity, events),
    ensures
        run(capacity, events).wf(),
        run(capacity, events).pool.capacity == capacity,
        run(capacity, events).pool.elements().to_multiset().add(
            run(capacity, events).held.flatten().to_multiset(),
        ) == pushed(events).to_multiset(),
    decreases events.len(),
{
    broadcast use vstd::seq_lib::group_to_multiset_ensures;

    let f = run(capacity, events);
    if events.len() == 0 {
        assert(f.pool.elements() =~= Seq::<T>::empty());
        assert(f.held.flatten() =~= Seq::<T>::empty());
        assert(f.pool.elements().to_multiset().add(f.held.flatten().to_multiset()) =~= pushed(
            events,
        ).to_multiset());
    } else {
        let before = events.drop_last();
        let s = run(capacity, before);
        every_value_is_somewhere(capacity, before);
        match events.last() {
            PoolEvent::Acquire => {
                let p = s.pool.acquire();
                buffer::acquire_loses_nothing(s.pool);
                s.held.lemma_flatten_push(p.current);
                vstd::seq_lib::lemma_multiset_commutative(p.pool.elements(), p.current);
                vstd::seq_lib::lemma_multiset_commutative(s.held.flatten(), p.current);
            },
            PoolEvent::Push(h, v) => {
                let p = s.producer(h);
                let q = p.push(v);
                assert(p.wf());
                buffer::push_loses_nothing(p, v);
                flatten_update(s.held, h, q.current);
                vstd::seq_lib::lemma_multiset_commutative(p.pool.elements(), p.current);
                vstd::seq_lib::lemma_multiset_commutative(q.pool.elements(), q.current);
                same_when_both_grow(
                    q.pool.elements().to_multiset(),
                    f.held.flatten().to_multiset(),
                    q.current.to_multiset(),
                    p.pool.elements().to_multiset(),
                    s.held.flatten().to_multiset(),
                    p.current.to_multiset(),
                    v,
                );
            },
            PoolEvent::Close(h) => {
                let p = s.producer(h);
                assert(p.wf());
                buffer::close_loses_nothing(p);
                flatten_update(s.held, h, Seq::empty());
                vstd::seq_lib::lemma_multiset_commutative(p.pool.elements(), p.current);
                assert(f.held.flatten().to_multiset().add(p.current.to_multiset())
                    =~= s.held.flatten().to_multiset());
            },
        }
        assert(f.pool.elements().to_multiset().add(f.held.flatten().to_multiset()) =~= pushed(
            events,
        ).to_multiset());
    }
}

/// What one producer has more, the pool and all producers have more.
proof fn same_when_both_grow<T>(
    new_pool: vstd::multiset::Multiset<T>,
    new_held: vstd::multiset::Multiset<T>,
    new_own: vstd::multiset::Multiset<T>,
    pool: vstd::multiset::Multiset<T>,
    held: vstd::multiset::Multiset<T>,
    own: vstd::multiset::Multiset<T>,
    v: T,
)
    requires
        new_pool.add(new_own) == pool.add(own).insert(v),
        new_held.add(own) == held.add(new_own),
    ensures
        new_pool.add(new_held) == pool.add(held).insert(v),
{
    broadcast use vstd::multiset::group_multiset_axioms;

    assert forall|x: T| #[trigger] new_pool.add(new_held).count(x) == pool.add(held).insert(
        v,
    ).count(x) by {
        let extra: nat = if x == v {
            1
        } else {
            0
        };
        assert(new_pool.add(new_own).count(x) == new_pool.count(x) + new_own.count(x));
        assert(pool.add(own).insert(v).count(x) == pool.count(x) + own.count(x) + extra);
        assert(new_held.add(own).count(x) == new_held.count(x) + own.count(x));
        assert(held.add(new_own).count(x) == held.count(x) + new_own.count(x));
        assert(pool.add(held).insert(v).count(x) == pool.count(x) + held.count(x) + extra);
        assert(new_pool.add(new_held).count(x) == new_pool.count(x) + new_held.count(x));
    }
    assert(new_pool.add(new_held) =~= pool.add(held).insert(v));
}

/// After any history of several producers, once all of them are closed, the
/// buffers that come out hold exactly the values that were pushed since the pool
/// was made or last drained, each as often as it was pushed. None of the buffers
/// is empty and none is over its capacity.
pub proof fn history_comes_out<T>(capacity: nat, events: Seq<PoolEvent<T>>)
    requires
        capacity > 0,
        can_happen(capacity, events),
        run(capacity, events).all_closed(),
    ensures
        ({
            let pool = run(capacity, events).pool;
            let b = pool.completed + pool.available;
            &&& b.flatten().to_multiset() == pushed(events).to_multiset()
            &&& forall|i: int| 0 <= i < b.len() ==> 1 <= (#[trigger] b[i]).len() <= capacity
            &&& pool.capacity == capacity
        }),
{
    broadcast use vstd::seq_lib::group_to_multiset_ensures;

    let f = run(capacity, events);
    every_value_is_somewhere(capacity, events);
    buffer::final_buffers_hold_everything(f.pool);
    assert forall|h: int| 0 <= h < f.held.len() implies (#[trigger] f.held[h]).len() == 0 by {
        assert(!f.is_open[h]);
    }
    empty_buffers_hold_nothing(f.held);
    assert(f.pool.elements().to_multiset().add(f.held.flatten().to_multiset())
        =~= f.pool.elements().to_multiset());
    let b = f.pool.completed + f.pool.available;
    assert forall|i: int| 0 <= i < b.len() implies 1 <= (#[trigger] b[i]).len() <= capacity by {
        if i < f.pool.completed.len() {
            assert(b[i] == f.pool.completed[i]);
        } else {
            assert(b[i] == f.pool.available[i - f.pool.completed.len()]);
        }
    }
}

/// Empty buffers hold nothing.
proof fn empty_buffers_hold_nothing<T>(b: Seq<Seq<T>>)
    requires
        forall|h: int| 0 <= h < b.len() ==> (#[trigger] b[h]).len() == 0,
    ensures
        b.flatten() == Seq::<T>::empty(),
    decreases b.len(),
{
    if b.len() > 0 {
        assert(b =~= b.drop_last().push(b.last()));
        b.drop_last().lemma_flatten_push(b.last());
        empty_buffers_hold_nothing(b.drop_last());
        assert(b.flatten() =~= Seq::<T>::empty());
    } else {
        assert(b.flatten() =~= Seq::<T>::empty());
    }
}

/// What a walk does with an element that it visits.
pub enum Visit<T> {
    /// Leaves this value in its place.
    Keep(T),
    /// Removes it.
    Remove,
}

/// A walk over buffers.
#[verifier::ext_equal]
pub struct Cursor<T> {
    /// The buffers.
    pub b: Seq<Seq<T>>,
    /// The buffer in which the walk goes on.
    pub bi: int,
    /// The place in the buffer at which it goes on.
    pub ei: int,
}

impl<T> Cursor<T> {
    /// Where the next element is.
    pub open spec fn found(self) -> (int, int) {
        buffer::seek(self.b, self.bi, self.ei)
    }

    /// Whether there is no element left to visit.
    pub open spec fn at_end(self) -> bool {
        self.found().0 >= self.b.len()
    }

    /// The element that is visited next.
    pub open spec fn element(self) -> T {
        self.b[self.found().0][self.found().1]
    }

    /// The walk after the next element was visited.
    pub open spec fn after(self, v: Visit<T>) -> Cursor<T> {
        let (bj, ej) = self.found();
        match v {
            Visit::Keep(x) => Cursor {
                b: self.b.update(bj, self.b[bj].update(ej, x)),
                bi: bj,
                ei: ej + 1,
            },
            Visit::Remove => Cursor { b: buffer::removed_at(self.b, bj, ej), bi: bj, ei: ej },
        }
    }

    /// The place is at or before the end of its buffer.
    pub open spec fn wf(self) -> bool {
        &&& 0 <= self.bi
        &&& 0 <= self.ei
        &&& self.bi < self.b.len() ==> self.ei <= self.b[self.bi].len()
    }

    /// The elements that are left to visit.
    pub open spec fn pending(self) -> Seq<T> {
        buffer::pending(self.b, self.bi, self.ei)
    }
}

/// A walk over the buffers after as many visits.
pub open spec fn walk<T>(b: Seq<Seq<T>>, visits: Seq<Visit<T>>) -> Cursor<T>
    decreases visits.len(),
{
    if visits.len() == 0 {
        Cursor { b, bi: 0, ei: 0 }
    } else {
        walk(b, visits.drop_last()).after(visits.last())
    }
}

/// Whether the walk finds an element for every visit.
pub open spec fn can_visit<T>(b: Seq<Seq<T>>, visits: Seq<Visit<T>>) -> bool
    decreases visits.len(),
{
    visits.len() == 0 || (can_visit(b, visits.drop_last()) && !walk(
        b,
        visits.drop_last(),
    ).at_end())
}

/// The elements that the walk visits, in order.
pub open spec fn visited<T>(b: Seq<Seq<T>>, visits: Seq<Visit<T>>) -> Seq<T>
    decreases visits.len(),
{
    if visits.len() == 0 {
        Seq::empty()
    } else {
        visited(b, visits.drop_last()).push(walk(b, visits.drop_last()).element())
    }
}

/// The values that the walk leaves in the place of the elements that it does not
/// remove.
pub open spec fn left_behind<T>(visits: Seq<Visit<T>>) -> Seq<T>
    decreases visits.len(),
{
    if visits.len() == 0 {
        Seq::empty()
    } else {
        match visits.last() {
            Visit::Keep(x) => left_behind(visits.drop_last()).push(x),
            Visit::Remove => left_behind(visits.drop_last()),
        }
    }
}

/// At every moment of a walk, what was visited and what is left to visit are the
/// elements at the start, and the buffers hold what was left behind and what is
/// left to visit.
pub proof fn walk_misses_nothing<T>(b: Seq<Seq<T>>, visits: Seq<Visit<T>>)
    requires
        can_visit(b, visits),
    ensures
        walk(b, visits).wf(),
        visited(b, visits).to_multiset().add(walk(b, visits).pending().to_multiset())
            == b.flatten().to_multiset(),
        left_behind(visits).to_multiset().add(walk(b, visits).pending().to_multiset()) == walk(
            b,
            visits,
        ).b.flatten().to_multiset(),
    decreases visits.len(),
{
    broadcast use vstd::seq_lib::group_to_multiset_ensures;

    let f = walk(b, visits);
    if visits.len() == 0 {
        buffer::pending_from_start(b);
        assert(visited(b, visits).to_multiset().add(f.pending().to_multiset())
            =~= b.flatten().to_multiset());
        assert(left_behind(visits).to_multiset().add(f.pending().to_multiset())
            =~= b.flatten().to_multiset());
    } else {
        let before = visits.drop_last();
        let s = walk(b, before);
        walk_misses_nothing(b, before);
        buffer::seek_skips_nothing(s.b, s.bi, s.ei);
        let (bj, ej) = s.found();
        cycle_phases::seek_goes_forward(s.b, s.bi, s.ei);
        let x = s.element();
        let rest = buffer::pending(s.b, bj, ej + 1);
        assert(s.pending() =~= seq![x] + rest);
        vstd::seq_lib::lemma_multiset_commutative(seq![x], rest);
        assert(Seq::<T>::empty().push(x) =~= seq![x]);
        assert(s.pending().to_multiset() =~= rest.to_multiset().insert(x));
        match visits.last() {
            Visit::Keep(v) => {
                let row = s.b[bj].update(ej, v);
                assert(f.b[bj].skip(ej + 1) =~= s.b[bj].skip(ej + 1));
                assert(f.b.skip(bj + 1) =~= s.b.skip(bj + 1));
                assert(f.pending() =~= rest);
                flatten_update(s.b, bj, row);
                vstd::seq_lib::to_multiset_update(s.b[bj], ej, v);
                kept_in_place(
                    f.b.flatten().to_multiset(),
                    s.b.flatten().to_multiset(),
                    s.b[bj].to_multiset(),
                    x,
                    v,
                );
            },
            Visit::Remove => {
                buffer::removal_skips_nothing(s.b, bj, ej);
                buffer::removal_takes_one_element(s.b, bj, ej);
                assert(f.pending().to_multiset() == rest.to_multiset());
            },
        }
        assert(visited(b, visits).to_multiset().add(f.pending().to_multiset())
            =~= b.flatten().to_multiset());
        one_visit_more(
            f.b.flatten().to_multiset(),
            s.b.flatten().to_multiset(),
            left_behind(before).to_multiset(),
            s.pending().to_multiset(),
            rest.to_multiset(),
            x,
            visits.last(),
        );
    }
}

/// What is left behind after one visit more.
proof fn one_visit_more<T>(
    new: vstd::multiset::Multiset<T>,
    old: vstd::multiset::Multiset<T>,
    left: vstd::multiset::Multiset<T>,
    pending: vstd::multiset::Multiset<T>,
    rest: vstd::multiset::Multiset<T>,
    x: T,
    visit: Visit<T>,
)
    requires
        left.add(pending) == old,
        pending == rest.insert(x),
        match visit {
            Visit::Keep(v) => new.insert(x) == old.insert(v),
            Visit::Remove => new.insert(x) == old,
        },
    ensures
        new == (match visit {
            Visit::Keep(v) => left.insert(v).add(rest),
            Visit::Remove => left.add(rest),
        }),
{
    broadcast use vstd::multiset::group_multiset_axioms;

    let goal = match visit {
        Visit::Keep(v) => left.insert(v).add(rest),
        Visit::Remove => left.add(rest),
    };
    assert forall|y: T| #[trigger] new.count(y) == goal.count(y) by {
        assert(left.add(pending).count(y) == old.count(y));
        assert(pending.count(y) == rest.insert(x).count(y));
        match visit {
            Visit::Keep(v) => {
                assert(new.insert(x).count(y) == old.insert(v).count(y));
            },
            Visit::Remove => {
                assert(new.insert(x).count(y) == old.count(y));
            },
        }
    }
    assert(new =~= goal);
}

/// A value in the place of another in one buffer is so in all of them.
proof fn kept_in_place<T>(
    new: vstd::multiset::Multiset<T>,
    old: vstd::multiset::Multiset<T>,
    row: vstd::multiset::Multiset<T>,
    x: T,
    v: T,
)
    requires
        row.count(x) > 0,
        new.add(row) == old.add(row.insert(v).remove(x)),
    ensures
        new.insert(x) == old.insert(v),
{
    broadcast use vstd::multiset::group_multiset_axioms;

    assert forall|y: T| #[trigger] new.insert(x).count(y) == old.insert(v).count(y) by {
        let more: nat = if y == v {
            1
        } else {
            0
        };
        let less: nat = if y == x {
            1
        } else {
            0
        };
        assert(new.add(row).count(y) == new.count(y) + row.count(y));
        assert(old.add(row.insert(v).remove(x)).count(y) == old.count(y) + row.insert(v).remove(
            x,
        ).count(y));
        assert(row.insert(v).count(y) == row.count(y) + more);
        assert(row.insert(v).remove(x).count(y) == row.count(y) + more - less);
        assert(new.insert(x).count(y) == new.count(y) + less);
        assert(old.insert(v).count(y) == old.count(y) + more);
    }
    assert(new.insert(x) =~= old.insert(v));
}

/// A walk to the end, with removals on the way, visits the elements that were
/// there at the start, each exactly once. Afterwards the buffers hold exactly
/// what was not removed, and there is nothing to visit however often one looks.
pub proof fn walk_visits_each_once<T>(b: Seq<Seq<T>>, visits: Seq<Visit<T>>)
    requires
        can_visit(b, visits),
        walk(b, visits).at_end(),
    ensures
        visited(b, visits).to_multiset() == b.flatten().to_multiset(),
        visited(b, visits).len() == b.flatten().len(),
        walk(b, visits).b.flatten().to_multiset() == left_behind(visits).to_multiset(),
        forall|e: int|
            #![trigger buffer::seek(walk(b, visits).b, walk(b, visits).found().0, e)]
            buffer::seek(walk(b, visits).b, walk(b, visits).found().0, e).0 >= walk(
                b,
                visits,
            ).b.len(),
{
    broadcast use vstd::seq_lib::group_to_multiset_ensures;

    let f = walk(b, visits);
    walk_misses_nothing(b, visits);
    buffer::seek_skips_nothing(f.b, f.bi, f.ei);
    assert(f.pending() =~= Seq::<T>::empty());
    assert(visited(b, visits).to_multiset() =~= b.flatten().to_multiset());
    assert(f.b.flatten().to_multiset() =~= left_behind(visits).to_multiset());
    assert(visited(b, visits).to_multiset().len() == visited(b, visits).len());
    assert(b.flatten().to_multiset().len() == b.flatten().len());
}

} // verus!
