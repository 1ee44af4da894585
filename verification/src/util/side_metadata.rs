//! Side metadata tables.

use std::collections::HashMap;
use vstd::prelude::*;

verus! {

/// A side metadata table: one value for every region of the address space.
///
/// The table is sparse. A region that was never written reads as the value that
/// the table was made with, as demand-zero memory does.
pub struct SideTable<V> {
    zero: V,
    entries: HashMap<usize, V>,
}

impl<V> View for SideTable<V> {
    type V = Map<usize, V>;

    /// The value of every region, whether it was written or not.
    closed spec fn view(&self) -> Map<usize, V> {
        Map::total(
            |i: usize|
                if self.entries@.dom().contains(i) {
                    self.entries@[i]
                } else {
                    self.zero
                },
        )
    }
}

/// A table has a value for every region.
pub broadcast proof fn table_is_total<V>(t: SideTable<V>, i: usize)
    ensures
        #[trigger] t@.dom().contains(i),
{
}

impl<V: Copy> SideTable<V> {
    /// A table in which every region reads as `zero`.
    pub fn new(zero: V) -> (r: SideTable<V>)
        ensures
            r@ == Map::total(|i: usize| zero),
    {
        let r = SideTable { zero, entries: HashMap::new() };
        assert(r@ =~= Map::total(|i: usize| zero));
        r
    }

    /// The value of region `i`.
    pub fn load(&self, i: usize) -> (r: V)
        ensures
            r == self@[i],
    {
        broadcast use vstd::std_specs::hash::group_hash_axioms;

        match self.entries.get(&i) {
            Some(v) => *v,
            None => self.zero,
        }
    }

    /// Sets the value of region `i` to `v`.
    pub fn store(&mut self, i: usize, v: V)
        ensures
            final(self)@ == old(self)@.insert(i, v),
    {
        broadcast use vstd::std_specs::hash::group_hash_axioms;

        self.entries.insert(i, v);
        assert(self@ =~= old(self)@.insert(i, v));
    }
}

impl SideTable<u8> {
    /// Whether no value is above `max`.
    pub fn is_at_most(&self, max: u8) -> (r: bool)
        ensures
            r == forall|i: usize| #[trigger] self@[i] <= max,
    {
        broadcast use vstd::std_specs::hash::group_hash_axioms;

        if self.zero > max {
            let n: usize = self.entries.len();
            proof {
                some_index_is_free(self.entries@.dom());
                let i = choose|i: usize| !self.entries@.dom().contains(i);
                assert(self@[i] == self.zero);
            }
            return false;
        }
        let all = entries(&self.entries);
        let mut k: usize = 0;
        while k < all.len()
            invariant
                k <= all@.len(),
                forall|i: int|
                    #![trigger all@[i]]
                    0 <= i < all@.len() ==> self.entries@.dom().contains(all@[i].0)
                        && self.entries@[all@[i].0] == all@[i].1,
                forall|i: int| 0 <= i < k ==> (#[trigger] all@[i]).1 <= max,
            decreases all@.len() - k,
        {
            if all[k].1 > max {
                assert(self@[all@[k as int].0] > max);
                return false;
            }
            k = k + 1;
        }
        assert forall|i: usize| #[trigger] self@[i] <= max by {
            if self.entries@.dom().contains(i) {
                assert(all@.contains((i, self.entries@[i])));
            }
        }
        true
    }
}

/// The entries of a hash map, in whatever order.
pub fn entries<V: Copy>(m: &HashMap<usize, V>) -> (r: Vec<(usize, V)>)
    ensures
        forall|i: int|
            #![trigger r@[i]]
            0 <= i < r@.len() ==> m@.dom().contains(r@[i].0) && m@[r@[i].0] == r@[i].1,
        forall|k: usize| #[trigger] m@.dom().contains(k) ==> r@.contains((k, m@[k])),
{
    broadcast use vstd::std_specs::hash::group_hash_axioms;

    let mut r: Vec<(usize, V)> = Vec::new();
    for e in it: m.iter()
        invariant
            it.seq() == vstd::std_specs::iter::IteratorSpec::remaining(
                &vstd::std_specs::hash::spec_hash_map_iter(m),
            ),
            r@.len() == it.index(),
            forall|i: int|
                #![trigger r@[i]]
                0 <= i < it.index() ==> (r@[i].0, r@[i].1) == (*it.seq()[i].0, *it.seq()[i].1),
    {
        r.push((*e.0, *e.1));
    }
    proof {
        assert forall|i: int|
            #![trigger r@[i]]
            0 <= i < r@.len() implies m@.dom().contains(r@[i].0) && m@[r@[i].0] == r@[i].1 by {
            assert(m@.contains_key(r@[i].0));
        }
        assert forall|k: usize| #[trigger] m@.dom().contains(k) implies r@.contains(
            (k, m@[k]),
        ) by {
            assert(m@.contains_key(k));
            let v = vstd::std_specs::iter::IteratorSpec::remaining(
                &vstd::std_specs::hash::spec_hash_map_iter(m),
            );
            let i = choose|i: int| 0 <= i < v.len() && v[i] == (&k, &m@[k]);
            assert(v.contains((&k, &m@[k])));
            assert(r@[i] == (k, m@[k]));
        }
    }
    r
}

/// A set whose size is a number of that type misses an index.
proof fn some_index_is_free(s: Set<usize>)
    requires
        s.len() <= usize::MAX,
    ensures
        exists|i: usize| !s.contains(i),
{
    if forall|i: usize| s.contains(i) {
        let n = usize::MAX + 1;
        let f = |i: int| i as usize;
        vstd::set_lib::lemma_int_range(0, n);
        let x = vstd::set_lib::set_int_range(0, n);
        assert(x.map(f) =~= s) by {
            assert forall|i: usize| s.contains(i) implies x.map(f).contains(i) by {
                assert(x.contains(i as int) && f(i as int) == i);
            }
        }
        vstd::set_lib::lemma_map_size(x, s, f);
    }
}

} // verus!
