//! A pool of buffers that several producers fill and one consumer drains.

use vstd::prelude::*;

verus! {

/// A pool of buffers.
///
/// Producers push through [`LocalBuffer`] handles. A buffer that is full goes to
/// `completed`; a producer that finishes hands what is left to `available`,
/// where the next producer picks it up. [`BufferPool::into_final_buffers`] then
/// takes everything out.
pub struct BufferPool<T> {
    /// How many elements make a buffer full.
    pub buffer_capacity: usize,
    /// Full buffers.
    pub completed: Vec<Vec<T>>,
    /// Buffers that a finished producer left partly filled.
    pub available: Vec<Vec<T>>,
}

/// A producer's handle on a [`BufferPool`]: the buffer it is filling.
pub struct LocalBuffer<T> {
    /// The elements that are not in the pool yet.
    pub current: Vec<T>,
}

/// What [`BufferPool::into_final_buffers`] took out of a pool.
pub struct FinalBuffers<T> {
    /// The buffers.
    pub buffers: Vec<Vec<T>>,
}

/// A walk over [`FinalBuffers`] that can change and remove elements.
pub struct FinalIterMut<'a, T> {
    /// The buffers.
    pub buffers: &'a mut Vec<Vec<T>>,
    /// The buffer of the current element.
    pub buf_idx: usize,
    /// The place of the current element in its buffer.
    pub elem_idx: usize,
    /// Whether there is no current element at this place: at the start, and
    /// after a removal.
    pub removed_current: bool,
}

/// The contents of the buffers of `v`.
pub open spec fn deep<T>(v: Seq<Vec<T>>) -> Seq<Seq<T>> {
    Seq::new(v.len(), |i: int| v[i]@)
}

/// What a pool holds.
#[verifier::ext_equal]
pub struct PoolView<T> {
    /// How many elements make a buffer full.
    pub capacity: nat,
    /// Full buffers.
    pub completed: Seq<Seq<T>>,
    /// Partly filled buffers.
    pub available: Seq<Seq<T>>,
}

/// A pool together with the buffer that one producer is filling.
#[verifier::ext_equal]
pub struct Producer<T> {
    /// The pool.
    pub pool: PoolView<T>,
    /// The elements that are not in the pool yet.
    pub current: Seq<T>,
}

impl<T> PoolView<T> {
    /// Full buffers are full, and the others neither full nor empty.
    pub open spec fn wf(self) -> bool {
        &&& self.capacity > 0
        &&& forall|i: int|
            #![trigger self.completed[i]]
            0 <= i < self.completed.len() ==> self.completed[i].len() == self.capacity
        &&& forall|i: int|
            #![trigger self.available[i]]
            0 <= i < self.available.len() ==> 0 < self.available[i].len() < self.capacity
    }

    /// The pool when its most recently returned buffer, if there is one, is
    /// handed to a producer.
    pub open spec fn acquire(self) -> Producer<T> {
        if self.available.len() > 0 {
            Producer {
                pool: PoolView { available: self.available.drop_last(), ..self },
                current: self.available.last(),
            }
        } else {
            Producer { pool: self, current: Seq::empty() }
        }
    }

    /// Everything in the pool.
    pub open spec fn elements(self) -> Seq<T> {
        self.completed.flatten() + self.available.flatten()
    }
}

impl<T> Producer<T> {
    /// The pool is well-formed and the producer's buffer not full.
    pub open spec fn wf(self) -> bool {
        &&& self.pool.wf()
        &&& self.current.len() < self.pool.capacity
    }

    /// After pushing `v`: a buffer that is now full goes to the pool, and the
    /// producer goes on with another.
    pub open spec fn push(self, v: T) -> Producer<T> {
        let filled = self.current.push(v);
        if filled.len() == self.pool.capacity {
            let next = self.pool.acquire();
            Producer {
                pool: PoolView { completed: next.pool.completed.push(filled), ..next.pool },
                current: next.current,
            }
        } else {
            Producer { pool: self.pool, current: filled }
        }
    }

    /// After pushing every element of `vs` in order.
    pub open spec fn push_all(self, vs: Seq<T>) -> Producer<T>
        decreases vs.len(),
    {
        if vs.len() == 0 {
            self
        } else {
            self.push_all(vs.drop_last()).push(vs.last())
        }
    }

    /// The pool after the producer has finished.
    pub open spec fn close(self) -> PoolView<T> {
        if self.current.len() == 0 {
            self.pool
        } else {
            PoolView { available: self.pool.available.push(self.current), ..self.pool }
        }
    }

    /// Everything in the pool and in the producer's buffer.
    pub open spec fn elements(self) -> Seq<T> {
        self.pool.elements() + self.current
    }
}

impl<T> View for BufferPool<T> {
    type V = PoolView<T>;

    open spec fn view(&self) -> PoolView<T> {
        PoolView {
            capacity: self.buffer_capacity as nat,
            completed: deep(self.completed@),
            available: deep(self.available@),
        }
    }
}

impl<T> View for LocalBuffer<T> {
    type V = Seq<T>;

    open spec fn view(&self) -> Seq<T> {
        self.current@
    }
}

impl<T> View for FinalBuffers<T> {
    type V = Seq<Seq<T>>;

    open spec fn view(&self) -> Seq<Seq<T>> {
        deep(self.buffers@)
    }
}

/// A pool and one of its producers.
pub open spec fn producer<T>(pool: BufferPool<T>, local: LocalBuffer<T>) -> Producer<T> {
    Producer { pool: pool@, current: local@ }
}

impl<T> BufferPool<T> {
    /// An empty pool whose buffers are full at `buffer_capacity` elements.
    pub fn new(buffer_capacity: usize) -> (r: BufferPool<T>)
        requires
            buffer_capacity > 0,
        ensures
            r@.wf(),
            r@ == (PoolView {
                capacity: buffer_capacity as nat,
                completed: Seq::<Seq<T>>::empty(),
                available: Seq::<Seq<T>>::empty(),
            }),
    {
        let r = BufferPool { buffer_capacity, completed: Vec::new(), available: Vec::new() };
        assert(r@.completed =~= Seq::<Seq<T>>::empty());
        assert(r@.available =~= Seq::<Seq<T>>::empty());
        r
    }

    /// A handle for one more producer.
    pub fn local_buffer(&mut self) -> (r: LocalBuffer<T>)
        requires
            old(self)@.wf(),
        ensures
            producer(*final(self), r) == old(self)@.acquire(),
            producer(*final(self), r).wf(),
    {
        LocalBuffer { current: self.acquire_buffer() }
    }

    /// Takes all buffers out of the pool, the full ones first. To be called
    /// when every producer has finished.
    pub fn into_final_buffers(&mut self) -> (r: FinalBuffers<T>)
        ensures
            r@ == old(self)@.completed + old(self)@.available,
            final(self)@ == (PoolView {
                capacity: old(self)@.capacity,
                completed: Seq::<Seq<T>>::empty(),
                available: Seq::<Seq<T>>::empty(),
            }),
    {
        self.completed.append(&mut self.available);
        let mut buffers: Vec<Vec<T>> = Vec::new();
        std::mem::swap(&mut buffers, &mut self.completed);
        assert(deep(buffers@) =~= old(self)@.completed + old(self)@.available);
        assert(self@.completed =~= Seq::<Seq<T>>::empty());
        assert(self@.available =~= Seq::<Seq<T>>::empty());
        FinalBuffers { buffers }
    }

    /// How many elements make a buffer full.
    pub fn buffer_capacity(&self) -> (r: usize)
        ensures
            r == self@.capacity,
    {
        self.buffer_capacity
    }

    /// Takes a buffer from `available`, or makes a new one.
    fn acquire_buffer(&mut self) -> (r: Vec<T>)
        ensures
            (Producer { pool: final(self)@, current: r@ }) == old(self)@.acquire(),
    {
        let r = match self.available.pop() {
            Some(b) => b,
            None => Vec::with_capacity(self.buffer_capacity),
        };
        assert((Producer { pool: self@, current: r@ }) =~= old(self)@.acquire()) by {
            assert(old(self)@.available.len() > 0 ==> self@.available
                =~= old(self)@.available.drop_last());
        }
        r
    }

    /// Moves a full buffer into `completed`.
    fn publish_full_buffer(&mut self, buf: Vec<T>)
        ensures
            final(self)@ == (PoolView {
                completed: old(self)@.completed.push(buf@),
                ..old(self)@
            }),
    {
        self.completed.push(buf);
        assert(self@.completed =~= old(self)@.completed.push(buf@));
    }

    /// Returns a partly filled buffer to `available`. An empty one is dropped.
    fn return_buffer(&mut self, buf: Vec<T>)
        ensures
            final(self)@ == (Producer { pool: old(self)@, current: buf@ }).close(),
    {
        if buf.is_empty() {
            return;
        }
        self.available.push(buf);
        assert(self@.available =~= old(self)@.available.push(buf@));
    }
}

impl<T> LocalBuffer<T> {
    /// Pushes `value` to the pool that the handle was made for.
    pub fn push(&mut self, pool: &mut BufferPool<T>, value: T)
        requires
            producer(*old(pool), *old(self)).wf(),
        ensures
            producer(*final(pool), *final(self)) == producer(*old(pool), *old(self)).push(value),
            producer(*final(pool), *final(self)).wf(),
    {
        self.current.push(value);
        if self.current.len() == pool.buffer_capacity {
            self.flush(pool);
        }
    }

    /// Pushes all of `values`.
    pub fn extend(&mut self, pool: &mut BufferPool<T>, values: Vec<T>)
        requires
            producer(*old(pool), *old(self)).wf(),
        ensures
            producer(*final(pool), *final(self)) == producer(*old(pool), *old(self)).push_all(
                values@,
            ),
            producer(*final(pool), *final(self)).wf(),
    {
        let ghost vs = values@;
        let ghost start = producer(*pool, *self);
        assert(vs.take(0) =~= Seq::<T>::empty());
        for value in it: values
            invariant
                it.seq() == vs,
                producer(*pool, *self) == start.push_all(vs.take(it.index() as int)),
                producer(*pool, *self).wf(),
        {
            self.push(pool, value);
            proof {
                let k = it.index() as int;
                assert(vs.take(k + 1).drop_last() =~= vs.take(k));
            }
        }
        assert(vs.take(vs.len() as int) =~= vs);
    }

    /// Ends the producer: what it has left goes to the pool.
    pub fn close(self, pool: &mut BufferPool<T>)
        requires
            producer(*old(pool), self).wf(),
        ensures
            final(pool)@ == producer(*old(pool), self).close(),
            final(pool)@.wf(),
    {
        pool.return_buffer(self.current);
    }

    /// Publishes the current buffer as full and goes on with another.
    fn flush(&mut self, pool: &mut BufferPool<T>)
        ensures
            producer(*final(pool), *final(self)) == (Producer {
                pool: PoolView {
                    completed: old(pool)@.completed.push(old(self)@),
                    ..old(pool)@.acquire().pool
                },
                current: old(pool)@.acquire().current,
            }),
    {
        let mut full_buf = pool.acquire_buffer();
        std::mem::swap(&mut full_buf, &mut self.current);
        pool.publish_full_buffer(full_buf);
    }
}

/// `s` without the element at `i`, whose place the last element takes.
pub open spec fn swap_removed<A>(s: Seq<A>, i: int) -> Seq<A> {
    s.update(i, s.last()).drop_last()
}

/// The buffers without the element at place `ei` of buffer `bi`. A buffer that
/// this leaves empty goes too.
pub open spec fn removed_at<T>(b: Seq<Seq<T>>, bi: int, ei: int) -> Seq<Seq<T>> {
    let rest = swap_removed(b[bi], ei);
    if rest.len() == 0 {
        swap_removed(b, bi)
    } else {
        b.update(bi, rest)
    }
}

/// The first place at or after place `ei` of buffer `bi` that holds an element;
/// the end of the buffers if there is none.
pub open spec fn seek<T>(b: Seq<Seq<T>>, bi: int, ei: int) -> (int, int)
    decreases b.len() - bi,
{
    if 0 <= bi < b.len() && ei >= b[bi].len() {
        seek(b, bi + 1, 0)
    } else {
        (bi, ei)
    }
}

/// The elements from place `ei` of buffer `bi` on.
pub open spec fn pending<T>(b: Seq<Seq<T>>, bi: int, ei: int) -> Seq<T> {
    if 0 <= bi < b.len() {
        b[bi].skip(ei) + b.skip(bi + 1).flatten()
    } else {
        Seq::empty()
    }
}

impl<T> FinalBuffers<T> {
    /// The buffers.
    pub fn into_vecs(self) -> (r: Vec<Vec<T>>)
        ensures
            deep(r@) == self@,
    {
        self.buffers
    }

    /// All elements, buffer by buffer.
    pub fn into_iter(self) -> (r: std::vec::IntoIter<T>)
        ensures
            vstd::std_specs::iter::IteratorSpec::remaining(&r) == self@.flatten(),
    {
        let all = self.into_elements();
        proof {
            vstd::std_specs::vec::axiom_spec_into_iter(all);
        }
        all.into_iter()
    }

    /// All elements, buffer by buffer, in one vector.
    fn into_elements(self) -> (r: Vec<T>)
        ensures
            r@ == self@.flatten(),
    {
        let ghost b = self@;
        let mut all: Vec<T> = Vec::new();
        let mut buffers = self.buffers;
        let mut i: usize = 0;
        let n: usize = buffers.len();
        assert(b.take(0).flatten() =~= Seq::<T>::empty());
        while i < n
            invariant
                i <= n == b.len() == buffers@.len(),
                forall|k: int| i <= k < n ==> #[trigger] buffers@[k]@ == b[k],
                all@ == b.take(i as int).flatten(),
            decreases n - i,
        {
            all.append(&mut buffers[i]);
            proof {
                assert(b.take(i + 1) =~= b.take(i as int).push(b[i as int]));
                b.take(i as int).lemma_flatten_push(b[i as int]);
            }
            i = i + 1;
        }
        assert(b.take(n as int) =~= b);
        all
    }

    /// A walk over the elements.
    pub fn iter_mut(&mut self) -> (r: FinalIterMut<'_, T>)
        ensures
            r.wf(),
            (*r.buffers)@ == old(self).buffers@,
            final(self).buffers@ == (*final(r.buffers))@,
            r.buf_idx == 0,
            r.elem_idx == 0,
            r.removed_current,
    {
        FinalIterMut {
            buffers: &mut self.buffers,
            buf_idx: 0,
            elem_idx: 0,
            // No element is current yet, so the first step does not move on.
            removed_current: true,
        }
    }

    /// The number of elements.
    pub fn len(&self) -> (r: usize)
        requires
            self@.flatten().len() <= usize::MAX,
        ensures
            r == self@.flatten().len(),
    {
        let ghost b = self@;
        let mut total: usize = 0;
        let mut i: usize = 0;
        assert(b.take(0).flatten() =~= Seq::<T>::empty());
        while i < self.buffers.len()
            invariant
                b == self@,
                i <= self.buffers@.len(),
                b.flatten().len() <= usize::MAX,
                total == b.take(i as int).flatten().len(),
            decreases self.buffers.len() - i,
        {
            proof {
                assert(b.take(i + 1) =~= b.take(i as int).push(b[i as int]));
                b.take(i as int).lemma_flatten_push(b[i as int]);
                vstd::seq_lib::lemma_flatten_concat(b.take(i + 1), b.skip(i + 1));
                assert(b.take(i + 1) + b.skip(i + 1) =~= b);
            }
            total = total + self.buffers[i].len();
            i = i + 1;
        }
        assert(b.take(b.len() as int) =~= b);
        total
    }

    /// The number of buffers.
    pub fn len_buffers(&self) -> (r: usize)
        ensures
            r == self@.len(),
    {
        self.buffers.len()
    }

    /// Whether there is no element.
    pub fn is_empty(&self) -> (r: bool)
        ensures
            r == (self@.flatten().len() == 0),
    {
        let ghost b = self@;
        let mut i: usize = 0;
        assert(b.take(0).flatten() =~= Seq::<T>::empty());
        while i < self.buffers.len()
            invariant
                b == self@,
                i <= self.buffers@.len(),
                b.take(i as int).flatten().len() == 0,
            decreases self.buffers.len() - i,
        {
            proof {
                assert(b.take(i + 1) =~= b.take(i as int).push(b[i as int]));
                b.take(i as int).lemma_flatten_push(b[i as int]);
                vstd::seq_lib::lemma_flatten_concat(b.take(i + 1), b.skip(i + 1));
                assert(b.take(i + 1) + b.skip(i + 1) =~= b);
            }
            if !self.buffers[i].is_empty() {
                return false;
            }
            i = i + 1;
        }
        assert(b.take(b.len() as int) =~= b);
        true
    }

    /// Folds the elements, buffer by buffer, into `state`. `f` has to take each
    /// element with what it can have made of those before.
    pub fn for_each<S, F: Fn(S, T) -> S>(self, state: S, f: F) -> (r: S)
        requires
            forall|s: S, i: int|
                0 <= i < self@.flatten().len() && folded_by(f, self@.flatten().take(i), state, s)
                    ==> #[trigger] f.requires((s, self@.flatten()[i])),
        ensures
            folded_by(f, self@.flatten(), state, r),
    {
        let ghost all = self@.flatten();
        let elems = self.into_elements();
        let mut s = state;
        let ghost start = state;
        let ghost states: Seq<S> = seq![state];
        for x in it: elems
            invariant
                it.seq() == all,
                states.len() == it.index() + 1,
                states[0] == start,
                s == states[it.index() as int],
                forall|s: S, i: int|
                    0 <= i < all.len() && folded_by(f, all.take(i), start, s)
                        ==> #[trigger] f.requires((s, all[i])),
                forall|i: int|
                    #![trigger states[i + 1]]
                    0 <= i < it.index() ==> f.ensures((states[i], all[i]), states[i + 1]),
        {
            proof {
                let i = it.index() as int;
                assert(states.last() == s);
                assert(folded_by(f, all.take(i), start, s));
                assert(f.requires((s, all[i])));
            }
            s = f(s, x);
            proof {
                states = states.push(s);
            }
        }
        assert(states.last() == s);
        s
    }
}

/// Whether `r` is what `f` can make of `xs`, taken one by one, from `state`.
pub open spec fn folded_by<S, T, F: Fn(S, T) -> S>(f: F, xs: Seq<T>, state: S, r: S) -> bool {
    exists|states: Seq<S>|
        #![trigger states.last()]
        {
            &&& states.len() == xs.len() + 1
            &&& states[0] == state
            &&& states.last() == r
            &&& forall|i: int|
                #![trigger states[i + 1]]
                0 <= i < xs.len() ==> f.ensures((states[i], xs[i]), states[i + 1])
        }
}

impl<'a, T> FinalIterMut<'a, T> {
    /// The current place, if it is inside the buffers, is inside its buffer.
    pub open spec fn wf(&self) -> bool {
        let b = deep(self.buffers@);
        &&& self.elem_idx < usize::MAX
        &&& self.buf_idx < b.len() ==> self.elem_idx + (if self.removed_current {
            0int
        } else {
            1int
        }) <= b[self.buf_idx as int].len()
    }

    /// The place at which the next step begins to look.
    pub open spec fn next_elem(&self) -> int {
        if self.removed_current {
            self.elem_idx as int
        } else {
            self.elem_idx + 1
        }
    }

    /// The elements that the walk still has to visit.
    pub open spec fn pending(&self) -> Seq<T> {
        pending(deep(self.buffers@), self.buf_idx as int, self.next_elem())
    }

    /// The next element, or `None` at the end.
    pub fn next(&mut self) -> (r: Option<&mut T>)
        requires
            old(self).wf(),
        ensures
            *final(final(self).buffers) == *final(old(self).buffers),
            (final(self).buf_idx as int, final(self).elem_idx as int) == seek(
                deep(old(self).buffers@),
                old(self).buf_idx as int,
                old(self).next_elem(),
            ),
            !final(self).removed_current,
            final(self).elem_idx + 1 < usize::MAX || r is Some ==> final(self).wf(),
            match r {
                Some(e) => {
                    &&& final(self).buf_idx < old(self).buffers@.len()
                    &&& final(self).elem_idx < old(self).buffers@[final(
                        self
                    ).buf_idx as int]@.len()
                    &&& *e == old(self).buffers@[final(self).buf_idx as int]@[final(
                        self
                    ).elem_idx as int]
                    &&& deep(final(self).buffers@) == deep(old(self).buffers@).update(
                        final(self).buf_idx as int,
                        deep(old(self).buffers@)[final(self).buf_idx as int].update(
                            final(self).elem_idx as int,
                            *final(e),
                        ),
                    )
                },
                None => {
                    &&& final(self).buf_idx >= old(self).buffers@.len()
                    &&& *final(self).buffers == *old(self).buffers
                },
            },
    {
        let ghost b = deep(self.buffers@);
        let ghost goal = seek(b, self.buf_idx as int, self.next_elem());
        // After a removal the element swapped in is at the current place.
        if !self.removed_current {
            self.elem_idx = self.elem_idx + 1;
        }
        self.removed_current = false;
        while self.buf_idx < self.buffers.len() && self.elem_idx >= self.buffers[self.buf_idx].len()
            invariant
                *final(self.buffers) == *final(old(self).buffers),
                *self.buffers == *old(self).buffers,
                b == deep(self.buffers@),
                goal == seek(b, self.buf_idx as int, self.elem_idx as int),
                !self.removed_current,
            decreases self.buffers.len() - self.buf_idx,
        {
            self.buf_idx = self.buf_idx + 1;
            self.elem_idx = 0;
        }
        if self.buf_idx >= self.buffers.len() {
            return None;
        }
        let bi: usize = self.buf_idx;
        let ei: usize = self.elem_idx;
        let r = &mut self.buffers[bi][ei];
        Some(r)
    }

    /// Removes the current element. The element that takes its place, if there
    /// is one, is visited next, so none is passed over.
    pub fn swap_remove_current(&mut self) -> (r: T)
        requires
            old(self).buf_idx < old(self).buffers@.len(),
            old(self).elem_idx < old(self).buffers@[old(self).buf_idx as int]@.len(),
        ensures
            *final(final(self).buffers) == *final(old(self).buffers),
            r == old(self).buffers@[old(self).buf_idx as int]@[old(self).elem_idx as int],
            deep(final(self).buffers@) == removed_at(
                deep(old(self).buffers@),
                old(self).buf_idx as int,
                old(self).elem_idx as int,
            ),
            final(self).buf_idx == old(self).buf_idx,
            final(self).elem_idx == old(self).elem_idx,
            final(self).removed_current,
            final(self).wf(),
    {
        let ghost b = deep(self.buffers@);
        self.removed_current = true;
        let bi: usize = self.buf_idx;
        let len: usize = self.buffers[bi].len();
        assert(self.elem_idx < len);
        let removed = self.buffers[bi].swap_remove(self.elem_idx);
        assert(deep(self.buffers@) =~= b.update(
            bi as int,
            swap_removed(b[bi as int], self.elem_idx as int),
        ));
        if self.buffers[bi].is_empty() {
            self.buffers.swap_remove(bi);
            assert(deep(self.buffers@) =~= swap_removed(b, bi as int));
        }
        removed
    }
}

/// Handing a buffer of the pool to a producer loses nothing.
pub proof fn acquire_loses_nothing<T>(p: PoolView<T>)
    requires
        p.wf(),
    ensures
        p.acquire().wf(),
        p.acquire().elements().to_multiset() == p.elements().to_multiset(),
{
    broadcast use vstd::seq_lib::group_to_multiset_ensures;

    let q = p.acquire();
    if p.available.len() > 0 {
        let a = p.available;
        assert(a =~= a.drop_last().push(a.last()));
        a.drop_last().lemma_flatten_push(a.last());
        assert(q.elements() =~= p.elements());
    } else {
        assert(q.elements() =~= p.elements());
    }
}

/// A producer that finishes leaves everything it had to the pool.
pub proof fn close_loses_nothing<T>(p: Producer<T>)
    requires
        p.wf(),
    ensures
        p.close().wf(),
        p.close().elements() == p.elements(),
{
    if p.current.len() > 0 {
        p.pool.available.lemma_flatten_push(p.current);
    }
    assert(p.close().elements() =~= p.elements());
}

/// A push adds the pushed element and loses nothing, whatever buffers move
/// between the producer and the pool.
pub proof fn push_loses_nothing<T>(p: Producer<T>, v: T)
    requires
        p.wf(),
    ensures
        p.push(v).wf(),
        p.push(v).elements().to_multiset() == p.elements().to_multiset().insert(v),
{
    broadcast use vstd::seq_lib::group_to_multiset_ensures;

    let filled = p.current.push(v);
    if filled.len() == p.pool.capacity {
        acquire_loses_nothing(p.pool);
        let next = p.pool.acquire();
        let q = p.push(v);
        next.pool.completed.lemma_flatten_push(filled);
        let c = next.pool.completed.flatten();
        let a = next.pool.available.flatten();
        assert(q.elements() =~= c + filled + a + next.current);
        assert(next.elements() =~= c + a + next.current);
        multiset_of_four(c, filled, a, next.current);
        vstd::seq_lib::lemma_multiset_commutative(c + a, next.current);
        vstd::seq_lib::lemma_multiset_commutative(c, a);
        vstd::seq_lib::lemma_multiset_commutative(p.pool.elements(), p.current);
        assert(filled.to_multiset() == p.current.to_multiset().insert(v));
        assert(p.elements() =~= p.pool.elements() + p.current);
        assert(q.elements().to_multiset() =~= p.elements().to_multiset().insert(v));
    } else {
        assert(p.push(v).elements() =~= p.elements().push(v));
    }
}

/// The multiset of four sequences in a row.
proof fn multiset_of_four<T>(a: Seq<T>, b: Seq<T>, c: Seq<T>, d: Seq<T>)
    ensures
        (a + b + c + d).to_multiset() == a.to_multiset().add(b.to_multiset()).add(
            c.to_multiset(),
        ).add(d.to_multiset()),
{
    vstd::seq_lib::lemma_multiset_commutative(a, b);
    vstd::seq_lib::lemma_multiset_commutative(a + b, c);
    vstd::seq_lib::lemma_multiset_commutative(a + b + c, d);
}

/// Pushing a sequence adds its elements and loses nothing.
pub proof fn push_all_loses_nothing<T>(p: Producer<T>, vs: Seq<T>)
    requires
        p.wf(),
    ensures
        p.push_all(vs).wf(),
        p.push_all(vs).elements().to_multiset() == p.elements().to_multiset().add(
            vs.to_multiset(),
        ),
    decreases vs.len(),
{
    broadcast use vstd::seq_lib::group_to_multiset_ensures;

    if vs.len() == 0 {
        assert(vs =~= Seq::<T>::empty());
        assert(p.elements().to_multiset() =~= p.elements().to_multiset().add(vs.to_multiset()));
    } else {
        push_all_loses_nothing(p, vs.drop_last());
        push_loses_nothing(p.push_all(vs.drop_last()), vs.last());
        assert(vs =~= vs.drop_last().push(vs.last()));
        assert(p.push_all(vs).elements().to_multiset() =~= p.elements().to_multiset().add(
            vs.to_multiset(),
        ));
    }
}

/// Pushing two sequences one after the other is pushing both in a row.
pub proof fn push_all_of_concat<T>(p: Producer<T>, a: Seq<T>, b: Seq<T>)
    ensures
        p.push_all(a).push_all(b) == p.push_all(a + b),
    decreases b.len(),
{
    if b.len() == 0 {
        assert(a + b =~= a);
    } else {
        push_all_of_concat(p, a, b.drop_last());
        assert((a + b).drop_last() =~= a + b.drop_last());
    }
}

/// Everything in the pool, and only that, comes out of it in the end, and no
/// buffer that comes out is empty.
pub proof fn final_buffers_hold_everything<T>(p: PoolView<T>)
    requires
        p.wf(),
    ensures
        (p.completed + p.available).flatten() == p.elements(),
        forall|i: int|
            0 <= i < (p.completed + p.available).len() ==> #[trigger] (p.completed
                + p.available)[i].len() > 0,
{
    vstd::seq_lib::lemma_flatten_concat(p.completed, p.available);
}

/// Passing over empty buffers passes over no element: what is pending stays so,
/// and begins with the element that was found.
pub proof fn seek_skips_nothing<T>(b: Seq<Seq<T>>, bi: int, ei: int)
    requires
        0 <= bi,
        0 <= ei,
        bi < b.len() ==> ei <= b[bi].len(),
    ensures
        ({
            let (bj, ej) = seek(b, bi, ei);
            &&& pending(b, bj, ej) == pending(b, bi, ei)
            &&& bj < b.len() ==> ej < b[bj].len() && pending(
                b,
                bi,
                ei,
            ).len() > 0 && pending(b, bi, ei)[0] == b[bj][ej]
                && pending(b, bj, ej + 1) == pending(b, bi, ei).skip(1)
            &&& bj >= b.len() ==> pending(b, bi, ei).len() == 0
        }),
    decreases b.len() - bi,
{
    if bi < b.len() && ei >= b[bi].len() {
        seek_skips_nothing(b, bi + 1, 0);
        let tail = b.skip(bi + 1);
        if bi + 1 < b.len() {
            assert(tail.first() == b[bi + 1]);
            assert(tail.drop_first() =~= b.skip(bi + 2));
            assert(b[bi + 1].skip(0) =~= b[bi + 1]);
        } else {
            assert(tail =~= Seq::<Seq<T>>::empty());
        }
        assert(pending(b, bi, ei) =~= pending(b, bi + 1, 0));
    } else if bi < b.len() {
        assert(b[bi].skip(ei + 1) =~= b[bi].skip(ei).skip(1));
        assert(pending(b, bi, ei + 1) =~= pending(b, bi, ei).skip(1));
    }
}

/// Removing the current element passes over no other: the elements still to be
/// visited are those that were to be visited before.
pub proof fn removal_skips_nothing<T>(b: Seq<Seq<T>>, bi: int, ei: int)
    requires
        0 <= bi < b.len(),
        0 <= ei < b[bi].len(),
    ensures
        pending(removed_at(b, bi, ei), bi, ei).to_multiset() == pending(
            b,
            bi,
            ei + 1,
        ).to_multiset(),
{
    broadcast use vstd::seq_lib::group_to_multiset_ensures;

    let s = b[bi];
    let rest = swap_removed(s, ei);
    let tail = b.skip(bi + 1);
    let after = removed_at(b, bi, ei);
    if rest.len() == 0 {
        assert(s.skip(ei + 1) =~= Seq::<T>::empty());
        assert(pending(b, bi, ei + 1) =~= tail.flatten());
        if bi == b.len() - 1 {
            assert(tail =~= Seq::<Seq<T>>::empty());
            assert(pending(after, bi, ei) =~= pending(b, bi, ei + 1));
        } else {
            let mid = tail.drop_last();
            assert(tail =~= mid.push(b.last()));
            mid.lemma_flatten_push(b.last());
            assert(after.skip(bi + 1) =~= mid);
            assert(after[bi].skip(0) =~= b.last());
            assert(pending(after, bi, ei) =~= b.last() + mid.flatten());
            vstd::seq_lib::lemma_multiset_commutative(b.last(), mid.flatten());
            vstd::seq_lib::lemma_multiset_commutative(mid.flatten(), b.last());
            assert(pending(after, bi, ei).to_multiset() =~= pending(b, bi, ei + 1).to_multiset());
        }
    } else {
        assert(after.skip(bi + 1) =~= tail);
        if ei == s.len() - 1 {
            assert(rest.skip(ei) =~= s.skip(ei + 1));
            assert(pending(after, bi, ei) =~= pending(b, bi, ei + 1));
        } else {
            let mid = s.subrange(ei + 1, s.len() - 1);
            assert(s.skip(ei + 1) =~= mid.push(s.last()));
            assert(rest.skip(ei) =~= seq![s.last()] + mid);
            vstd::seq_lib::lemma_multiset_commutative(seq![s.last()], mid);
            vstd::seq_lib::lemma_multiset_commutative(mid, seq![s.last()]);
            assert(mid + seq![s.last()] =~= mid.push(s.last()));
            vstd::seq_lib::lemma_multiset_commutative(rest.skip(ei), tail.flatten());
            vstd::seq_lib::lemma_multiset_commutative(s.skip(ei + 1), tail.flatten());
            assert(rest.skip(ei).to_multiset() =~= s.skip(ei + 1).to_multiset());
        }
    }
}

/// Removing an element takes that element from the buffers and nothing else.
pub proof fn removal_takes_one_element<T>(b: Seq<Seq<T>>, bi: int, ei: int)
    requires
        0 <= bi < b.len(),
        0 <= ei < b[bi].len(),
    ensures
        b.flatten().to_multiset() == removed_at(b, bi, ei).flatten().to_multiset().insert(
            b[bi][ei],
        ),
{
    broadcast use vstd::seq_lib::group_to_multiset_ensures;

    let done = b.take(bi);
    let after = removed_at(b, bi, ei);
    removal_skips_nothing(b, bi, ei);
    // The elements before the place, the element, and those after it.
    let before = done.flatten() + b[bi].take(ei);
    assert(b =~= done + (seq![b[bi]] + b.skip(bi + 1)));
    vstd::seq_lib::lemma_flatten_concat(done, seq![b[bi]] + b.skip(bi + 1));
    vstd::seq_lib::lemma_flatten_concat(seq![b[bi]], b.skip(bi + 1));
    seq![b[bi]].lemma_flatten_one_element();
    let here = seq![b[bi][ei]];
    assert(b[bi] =~= b[bi].take(ei) + here + b[bi].skip(ei + 1));
    assert(b.flatten() =~= before + here + pending(b, bi, ei + 1));
    vstd::seq_lib::lemma_multiset_commutative(before, here);
    vstd::seq_lib::lemma_multiset_commutative(before + here, pending(b, bi, ei + 1));
    vstd::seq_lib::lemma_multiset_commutative(before, pending(after, bi, ei));
    assert(Seq::<T>::empty().push(b[bi][ei]) =~= here);
    let rest = swap_removed(b[bi], ei);
    if bi < after.len() {
        assert(after =~= done + (seq![after[bi]] + after.skip(bi + 1)));
        vstd::seq_lib::lemma_flatten_concat(done, seq![after[bi]] + after.skip(bi + 1));
        vstd::seq_lib::lemma_flatten_concat(seq![after[bi]], after.skip(bi + 1));
        seq![after[bi]].lemma_flatten_one_element();
        if rest.len() == 0 {
            assert(b[bi].take(ei) =~= Seq::<T>::empty());
            assert(after[bi] =~= after[bi].skip(0));
        } else {
            assert(after[bi] =~= b[bi].take(ei) + after[bi].skip(ei));
        }
        assert(after.flatten() =~= before + pending(after, bi, ei));
    } else {
        assert(b[bi].take(ei) =~= Seq::<T>::empty());
        assert(after =~= done);
        assert(after.flatten() =~= before + pending(after, bi, ei));
    }
    assert(b.flatten().to_multiset() =~= after.flatten().to_multiset().insert(b[bi][ei]));
}

/// A walk that begins at the first place has every element before it.
pub proof fn pending_from_start<T>(b: Seq<Seq<T>>)
    ensures
        pending(b, 0, 0) == b.flatten(),
{
    if b.len() > 0 {
        assert(b[0].skip(0) =~= b[0]);
        assert(b.skip(1) =~= b.drop_first());
    }
}

} // verus!
