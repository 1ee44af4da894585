//! A stack in chunks of fixed size, so that growing it never moves what is in
//! it.

use crate::plan::lxr::buffer;
use vstd::prelude::*;

verus! {

/// A stack in chunks.
pub struct ChunkedStack<T> {
    chunks: Vec<Vec<T>>,
    chunk_cap: usize,
}

impl<T> View for ChunkedStack<T> {
    type V = Seq<T>;

    /// The elements, the one pushed last at the end.
    closed spec fn view(&self) -> Seq<T> {
        buffer::deep(self.chunks@).flatten()
    }
}

/// The number of elements in `n` chunks of `cap` elements.
proof fn flatten_of_full_chunks<T>(b: Seq<Seq<T>>, cap: nat)
    requires
        forall|i: int| 0 <= i < b.len() ==> (#[trigger] b[i]).len() == cap,
    ensures
        b.flatten().len() == b.len() * cap,
    decreases b.len(),
{
    if b.len() > 0 {
        let p = b.drop_last();
        assert(b =~= p.push(b.last()));
        p.lemma_flatten_push(b.last());
        flatten_of_full_chunks(p, cap);
        assert((b.len() - 1) * cap + cap == b.len() * cap) by (nonlinear_arith);
    } else {
        assert(b.len() * cap == 0) by (nonlinear_arith)
            requires
                b.len() == 0,
        ;
    }
}

impl<T> ChunkedStack<T> {
    /// There is at least one chunk, and every chunk but the last is full.
    pub closed spec fn wf(&self) -> bool {
        let b = buffer::deep(self.chunks@);
        &&& b.len() > 0
        &&& forall|i: int| 0 <= i < b.len() - 1 ==> (#[trigger] b[i]).len() == self.chunk_cap
        &&& self.chunk_cap > 0 ==> b.last().len() <= self.chunk_cap
    }

    /// How many elements make a chunk full.
    pub closed spec fn chunk_capacity(&self) -> usize {
        self.chunk_cap
    }

    /// The elements are those of the full chunks and those of the last.
    proof fn parts(&self)
        requires
            self.wf(),
        ensures
            ({
                let b = buffer::deep(self.chunks@);
                &&& self@ == b.drop_last().flatten() + b.last()
                &&& self@.len() == (self.chunks@.len() - 1) * self.chunk_cap + b.last().len()
            }),
    {
        let b = buffer::deep(self.chunks@);
        assert(b =~= b.drop_last().push(b.last()));
        b.drop_last().lemma_flatten_push(b.last());
        assert forall|i: int| 0 <= i < b.drop_last().len() implies (#[trigger] b.drop_last()[i]).len()
            == self.chunk_cap by {
            assert(b.drop_last()[i] == b[i]);
        }
        flatten_of_full_chunks(b.drop_last(), self.chunk_cap as nat);
    }

    /// An empty stack whose chunks are full at `chunk_cap` elements.
    pub fn with_chunk_cap(chunk_cap: usize) -> (r: ChunkedStack<T>)
        ensures
            r.wf(),
            r@ == Seq::<T>::empty(),
            r.chunk_capacity() == chunk_cap,
    {
        let mut chunks: Vec<Vec<T>> = Vec::new();
        chunks.push(Vec::with_capacity(chunk_cap));
        let r = ChunkedStack { chunks, chunk_cap };
        proof {
            r.parts();
            assert(r@ =~= Seq::<T>::empty()) by {
                assert(buffer::deep(r.chunks@).drop_last() =~= Seq::<Seq<T>>::empty());
            }
        }
        r
    }

    /// An empty stack with chunks of the usual size.
    pub fn new() -> (r: ChunkedStack<T>)
        ensures
            r.wf(),
            r@ == Seq::<T>::empty(),
            r.chunk_capacity() == 2048,
    {
        Self::with_chunk_cap(2048)
    }

    /// The number of elements.
    pub fn len(&self) -> (r: usize)
        requires
            self.wf(),
            self@.len() <= usize::MAX,
        ensures
            r == self@.len(),
    {
        let n: usize = self.chunks.len();
        let last: usize = self.chunks[n - 1].len();
        proof {
            self.parts();
            assert((n - 1) * self.chunk_cap >= 0) by (nonlinear_arith)
                requires
                    n >= 1,
            ;
        }
        (n - 1) * self.chunk_cap + last
    }

    /// Whether there is no element.
    pub fn is_empty(&self) -> (r: bool)
        requires
            self.wf(),
            self@.len() <= usize::MAX,
        ensures
            r == (self@.len() == 0),
    {
        self.len() == 0
    }

    /// Pushes `value`. A chunk that is full is left as it is, and a new one
    /// begun.
    pub fn push(&mut self, value: T)
        requires
            old(self).wf(),
        ensures
            final(self).wf(),
            final(self)@ == old(self)@.push(value),
            final(self).chunk_capacity() == old(self).chunk_capacity(),
    {
        let ghost b0 = buffer::deep(self.chunks@);
        proof {
            self.parts();
        }
        let n: usize = self.chunks.len();
        if self.chunks[n - 1].len() == self.chunk_cap {
            self.chunks.push(Vec::with_capacity(self.chunk_cap));
            proof {
                let b1 = buffer::deep(self.chunks@);
                assert(b1 =~= b0.push(Seq::empty()));
                b0.lemma_flatten_push(Seq::empty());
                assert(self@ =~= old(self)@);
            }
        }
        let ghost b1 = buffer::deep(self.chunks@);
        let ghost cap = self.chunk_cap;
        proof {
            self.parts();
        }
        let m: usize = self.chunks.len();
        self.chunks[m - 1].push(value);
        proof {
            let b2 = buffer::deep(self.chunks@);
            assert(b2 =~= b1.update(m - 1, b1[m - 1].push(value)));
            assert(b2.drop_last() =~= b1.drop_last());
            self.parts();
            assert(self@ =~= old(self)@.push(value));
        }
    }

    /// Drops the last chunk if it is empty while there are elements.
    fn drop_empty_chunk(&mut self)
        requires
            old(self).wf(),
            old(self)@.len() > 0,
        ensures
            final(self).wf(),
            final(self)@ == old(self)@,
            final(self).chunk_capacity() == old(self).chunk_capacity(),
            buffer::deep(final(self).chunks@).last().len() > 0,
    {
        let ghost b0 = buffer::deep(self.chunks@);
        proof {
            self.parts();
        }
        let n: usize = self.chunks.len();
        if self.chunks[n - 1].is_empty() {
            proof {
                assert(n > 1 && self.chunk_cap > 0) by {
                    if n == 1 || self.chunk_cap == 0 {
                        assert((n - 1) * self.chunk_cap == 0) by (nonlinear_arith)
                            requires
                                n == 1 || self.chunk_cap == 0,
                        ;
                    }
                }
            }
            self.chunks.pop();
            proof {
                let b1 = buffer::deep(self.chunks@);
                assert(b1 =~= b0.drop_last());
                assert(b1.last() == b0[n - 2]);
                assert(b0.drop_last().flatten() + b0.last() =~= b0.drop_last().flatten());
            }
        }
    }

    /// Pops the element that was pushed last.
    pub fn pop(&mut self) -> (r: Option<T>)
        requires
            old(self).wf(),
            old(self)@.len() <= usize::MAX,
        ensures
            final(self).wf(),
            final(self).chunk_capacity() == old(self).chunk_capacity(),
            old(self)@.len() == 0 ==> r is None && final(self)@ == old(self)@,
            old(self)@.len() > 0 ==> r == Some(old(self)@.last()) && final(self)@
                == old(self)@.drop_last(),
    {
        if self.len() == 0 {
            return None;
        }
        self.drop_empty_chunk();
        let ghost b0 = buffer::deep(self.chunks@);
        proof {
            self.parts();
        }
        let n: usize = self.chunks.len();
        let r = self.chunks[n - 1].pop();
        proof {
            let b1 = buffer::deep(self.chunks@);
            assert(b1 =~= b0.update(n - 1, b0[n - 1].drop_last()));
            assert(b1.drop_last() =~= b0.drop_last());
            self.parts();
            assert(self@ =~= old(self)@.drop_last());
        }
        r
    }

    /// The element that was pushed last.
    pub fn last(&mut self) -> (r: Option<&T>)
        requires
            old(self).wf(),
            old(self)@.len() <= usize::MAX,
        ensures
            final(self).wf(),
            final(self)@ == old(self)@,
            final(self).chunk_capacity() == old(self).chunk_capacity(),
            old(self)@.len() == 0 ==> r is None,
            old(self)@.len() > 0 ==> (r matches Some(e) && *e == old(self)@.last()),
    {
        if self.len() == 0 {
            return None;
        }
        self.drop_empty_chunk();
        proof {
            self.parts();
        }
        let n: usize = self.chunks.len();
        let m: usize = self.chunks[n - 1].len();
        Some(&self.chunks[n - 1][m - 1])
    }
}

} // verus!
