//! The object graph: which objects there are, the slots of each, and what the
//! slots hold.

use crate::util::address::{granule, ObjectReference};
use crate::util::side_metadata::entries;
use std::collections::HashMap;
use vstd::prelude::*;

verus! {

/// What the collector knows of one object.
#[derive(Debug)]
pub struct ObjectInfo {
    /// The object.
    pub object: ObjectReference,
    /// Its size in bytes.
    pub size: usize,
    /// The addresses of its reference slots, in the order in which they are
    /// scanned.
    pub slots: Vec<usize>,
    /// Whether it is an array of references.
    pub is_obj_array: bool,
    /// Whether it lies in the block-structured space; otherwise it is a large
    /// object.
    pub in_immix_space: bool,
}

/// The object graph.
pub struct Heap {
    /// The objects, each once.
    pub objects: Vec<ObjectInfo>,
    /// For the granule of each object, the place of the object in `objects`.
    pub index: HashMap<usize, usize>,
    /// What each slot holds.
    pub fields: HashMap<usize, Option<ObjectReference>>,
}

impl Heap {
    /// Whether `o` is an object of the heap.
    pub open spec fn contains(&self, o: ObjectReference) -> bool {
        &&& self.index@.dom().contains(o.granule())
        &&& self.objects@[self.index@[o.granule()] as int].object == o
    }

    /// The place of the object `o` among the objects.
    pub open spec fn place(&self, o: ObjectReference) -> int {
        self.index@[o.granule()] as int
    }

    /// What is known of the object `o`.
    pub open spec fn info(&self, o: ObjectReference) -> ObjectInfo {
        self.objects@[self.place(o)]
    }

    /// The slots of the object `o`.
    pub open spec fn slots(&self, o: ObjectReference) -> Seq<usize> {
        self.info(o).slots@
    }

    /// Every object is indexed by its granule, no two objects share one, every
    /// slot has a value, and no slot holds a reference to anything but an
    /// object of the heap.
    pub open spec fn wf(&self) -> bool {
        &&& forall|k: int|
            #![trigger self.objects@[k]]
            0 <= k < self.objects@.len() ==> {
                &&& self.index@.dom().contains(self.objects@[k].object.granule())
                &&& self.index@[self.objects@[k].object.granule()] == k
                &&& self.objects@[k].object.addr + self.objects@[k].size <= usize::MAX
            }
        &&& forall|g: usize|
            #![trigger self.index@[g]]
            self.index@.dom().contains(g) ==> {
                &&& self.index@[g] < self.objects@.len()
                &&& self.objects@[self.index@[g] as int].object.granule() == g
            }
        &&& forall|k: int, j: int|
            #![trigger self.objects@[k].slots@[j]]
            0 <= k < self.objects@.len() && 0 <= j < self.objects@[k].slots@.len()
                ==> self.fields@.dom().contains(self.objects@[k].slots@[j])
        &&& forall|a: usize, x: ObjectReference|
            #![trigger self.contains(x), self.fields@[a]]
            self.fields@.dom().contains(a) && self.fields@[a] == Some(x) ==> self.contains(x)
    }

    /// An empty heap.
    pub fn new() -> (r: Heap)
        ensures
            r.wf(),
            r.objects@ == Seq::<ObjectInfo>::empty(),
            r.fields@ == Map::<usize, Option<ObjectReference>>::empty(),
    {
        broadcast use vstd::std_specs::hash::group_hash_axioms;

        Heap { objects: Vec::new(), index: HashMap::new(), fields: HashMap::new() }
    }

    /// What is known of the object `o`.
    pub fn get(&self, o: ObjectReference) -> (r: &ObjectInfo)
        requires
            self.wf(),
            self.contains(o),
        ensures
            *r == self.info(o),
            r.object == o,
    {
        broadcast use vstd::std_specs::hash::group_hash_axioms;

        match self.index.get(&granule(o.addr)) {
            Some(k) => &self.objects[*k],
            None => &self.objects[0],
        }
    }

    /// Whether every place of the index holds the object of its granule.
    fn index_is_well_formed(&self) -> (r: bool)
        ensures
            r == forall|g: usize|
                #![trigger self.index@[g]]
                self.index@.dom().contains(g) ==> {
                    &&& self.index@[g] < self.objects@.len()
                    &&& self.objects@[self.index@[g] as int].object.granule() == g
                },
    {
        broadcast use vstd::std_specs::hash::group_hash_axioms;

        let all = entries(&self.index);
        let mut i: usize = 0;
        while i < all.len()
            invariant
                i <= all@.len(),
                forall|j: int|
                    #![trigger all@[j]]
                    0 <= j < all@.len() ==> self.index@.dom().contains(all@[j].0)
                        && self.index@[all@[j].0] == all@[j].1,
                forall|j: int|
                    #![trigger all@[j]]
                    0 <= j < i ==> all@[j].1 < self.objects@.len()
                        && self.objects@[all@[j].1 as int].object.granule() == all@[j].0,
            decreases all@.len() - i,
        {
            let (g, k): (usize, usize) = all[i];
            assert(self.index@[all@[i as int].0] == k);
            if k >= self.objects.len() || granule(self.objects[k].object.addr) != g {
                return false;
            }
            i = i + 1;
        }
        assert forall|g: usize|
            #![trigger self.index@[g]]
            self.index@.dom().contains(g) implies self.index@[g] < self.objects@.len()
            && self.objects@[self.index@[g] as int].object.granule() == g by {
            assert(all@.contains((g, self.index@[g])));
        }
        true
    }

    /// Whether every slot holds an object of the heap or nothing.
    fn fields_are_well_formed(&self) -> (r: bool)
        requires
            forall|g: usize|
                #![trigger self.index@[g]]
                self.index@.dom().contains(g) ==> self.index@[g] < self.objects@.len(),
        ensures
            r == forall|a: usize, x: ObjectReference|
                #![trigger self.contains(x), self.fields@[a]]
                self.fields@.dom().contains(a) && self.fields@[a] == Some(x) ==> self.contains(x),
    {
        broadcast use vstd::std_specs::hash::group_hash_axioms;

        let all = entries(&self.fields);
        let mut i: usize = 0;
        while i < all.len()
            invariant
                i <= all@.len(),
                forall|j: int|
                    #![trigger all@[j]]
                    0 <= j < all@.len() ==> self.fields@.dom().contains(all@[j].0)
                        && self.fields@[all@[j].0] == all@[j].1,
                forall|g: usize|
                    #![trigger self.index@[g]]
                    self.index@.dom().contains(g) ==> self.index@[g] < self.objects@.len(),
                forall|j: int|
                    #![trigger all@[j]]
                    0 <= j < i ==> (all@[j].1 matches Some(x) ==> self.contains(x)),
            decreases all@.len() - i,
        {
            broadcast use vstd::std_specs::hash::group_hash_axioms;

            if let Some(x) = all[i].1 {
                let known: bool = match self.index.get(&granule(x.addr)) {
                    Some(k) => self.objects[*k].object == x,
                    None => false,
                };
                if !known {
                    assert(!self.contains(x) && self.fields@[all@[i as int].0] == Some(x));
                    return false;
                }
            }
            i = i + 1;
        }
        assert forall|a: usize, x: ObjectReference|
            #![trigger self.contains(x), self.fields@[a]]
            self.fields@.dom().contains(a) && self.fields@[a] == Some(x) implies self.contains(
            x,
        ) by {
            assert(all@.contains((a, self.fields@[a])));
        }
        true
    }

    /// Whether every object is found by its granule and lies inside the address
    /// space, every slot of an object is a slot of the heap, and what a slot holds
    /// is an object of the heap.
    pub fn is_well_formed(&self) -> (r: bool)
        ensures
            r == self.wf(),
    {
        broadcast use vstd::std_specs::hash::group_hash_axioms;

        let mut k: usize = 0;
        while k < self.objects.len()
            invariant
                k <= self.objects@.len(),
                forall|i: int|
                    #![trigger self.objects@[i]]
                    0 <= i < k ==> {
                        &&& self.index@.dom().contains(self.objects@[i].object.granule())
                        &&& self.index@[self.objects@[i].object.granule()] == i
                        &&& self.objects@[i].object.addr + self.objects@[i].size <= usize::MAX
                    },
                forall|i: int, j: int|
                    #![trigger self.objects@[i].slots@[j]]
                    0 <= i < k && 0 <= j < self.objects@[i].slots@.len()
                        ==> self.fields@.dom().contains(self.objects@[i].slots@[j]),
            decreases self.objects@.len() - k,
        {
            broadcast use vstd::std_specs::hash::group_hash_axioms;

            let info = &self.objects[k];
            assert(*info == self.objects@[k as int]);
            let found: bool = match self.index.get(&granule(info.object.addr)) {
                Some(place) => *place == k,
                None => false,
            };
            if !found || info.size > usize::MAX - info.object.addr {
                return false;
            }
            let mut j: usize = 0;
            while j < info.slots.len()
                invariant
                    k < self.objects@.len(),
                    *info == self.objects@[k as int],
                    j <= info.slots@.len(),
                    forall|i: int|
                        0 <= i < j ==> self.fields@.dom().contains(#[trigger] info.slots@[i]),
                decreases info.slots@.len() - j,
            {
                broadcast use vstd::std_specs::hash::group_hash_axioms;

                if !self.fields.contains_key(&info.slots[j]) {
                    assert(!self.fields@.dom().contains(
                        self.objects@[k as int].slots@[j as int],
                    ));
                    return false;
                }
                j = j + 1;
            }
            k = k + 1;
        }
        self.index_is_well_formed() && self.fields_are_well_formed()
    }

    /// Whether `o` is an object of the heap.
    pub fn has(&self, o: ObjectReference) -> (r: bool)
        requires
            self.wf(),
        ensures
            r == self.contains(o),
    {
        broadcast use vstd::std_specs::hash::group_hash_axioms;

        match self.index.get(&granule(o.addr)) {
            Some(k) => self.objects[*k].object == o,
            None => false,
        }
    }

    /// What the slot holds.
    pub fn load(&self, slot: usize) -> (r: Option<ObjectReference>)
        requires
            self.wf(),
            self.fields@.dom().contains(slot),
        ensures
            r == self.fields@[slot],
            r matches Some(x) ==> self.contains(x),
    {
        broadcast use vstd::std_specs::hash::group_hash_axioms;

        match self.fields.get(&slot) {
            Some(v) => *v,
            None => None,
        }
    }

    /// Adds an object. Its slots hold nothing, unless they held something
    /// before.
    pub fn add_object(&mut self, info: ObjectInfo)
        requires
            old(self).wf(),
            !old(self).index@.dom().contains(info.object.granule()),
            info.object.addr + info.size <= usize::MAX,
            old(self).objects@.len() < usize::MAX,
        ensures
            final(self).wf(),
            final(self).contains(info.object),
            final(self).objects@ == old(self).objects@.push(info),
            forall|x: ObjectReference| old(self).contains(x) ==> #[trigger] final(self).contains(x),
            forall|a: usize|
                #![trigger final(self).fields@.dom().contains(a)]
                final(self).fields@.dom().contains(a) <==> old(self).fields@.dom().contains(a)
                    || info.slots@.contains(a),
            forall|a: usize|
                #![trigger final(self).fields@[a]]
                final(self).fields@.dom().contains(a) ==> final(self).fields@[a] == (if old(
                    self,
                ).fields@.dom().contains(a) {
                    old(self).fields@[a]
                } else {
                    None
                }),
    {
        broadcast use vstd::std_specs::hash::group_hash_axioms;

        let mut i: usize = 0;
        while i < info.slots.len()
            invariant
                i <= info.slots@.len(),
                self.objects == old(self).objects,
                self.index == old(self).index,
                forall|a: usize|
                    #![trigger self.fields@.dom().contains(a)]
                    self.fields@.dom().contains(a) <==> old(self).fields@.dom().contains(a)
                        || info.slots@.take(i as int).contains(a),
                forall|a: usize|
                    #![trigger self.fields@[a]]
                    self.fields@.dom().contains(a) ==> self.fields@[a] == (if old(
                        self,
                    ).fields@.dom().contains(a) {
                        old(self).fields@[a]
                    } else {
                        None
                    }),
            decreases info.slots@.len() - i,
        {
            let slot: usize = info.slots[i];
            let ghost before = info.slots@.take(i as int);
            let ghost after = info.slots@.take(i + 1);
            assert(after =~= before.push(slot));
            assert(after[i as int] == slot);
            assert forall|a: usize| #[trigger] after.contains(a) <==> before.contains(a) || a
                == slot by {
                if before.contains(a) {
                    let k = choose|k: int| 0 <= k < before.len() && before[k] == a;
                    assert(after[k] == a);
                }
                if after.contains(a) {
                    let k = choose|k: int| 0 <= k < after.len() && after[k] == a;
                    if k < before.len() {
                        assert(before[k] == a);
                    }
                }
            }
            if !self.fields.contains_key(&slot) {
                self.fields.insert(slot, None);
            }
            i = i + 1;
        }
        assert(info.slots@.take(i as int) =~= info.slots@);
        let place: usize = self.objects.len();
        let ghost g = info.object.granule();
        self.index.insert(granule(info.object.addr), place);
        self.objects.push(info);
        assert forall|x: ObjectReference| old(self).contains(x) implies #[trigger] self.contains(
            x,
        ) by {
            assert(old(self).index@[x.granule()] < old(self).objects@.len());
        }
        assert forall|k: int, j: int|
            0 <= k < self.objects@.len() && 0 <= j
                < self.objects@[k].slots@.len() implies self.fields@.dom().contains(
            #[trigger] self.objects@[k].slots@[j],
        ) by {
            if k < old(self).objects@.len() {
                assert(old(self).fields@.dom().contains(old(self).objects@[k].slots@[j]));
            } else {
                assert(info.slots@.contains(info.slots@[j]));
            }
        }
        assert forall|a: usize, x: ObjectReference|
            #![trigger self.contains(x), self.fields@[a]]
            self.fields@.dom().contains(a) && self.fields@[a] == Some(x) implies self.contains(
            x,
        ) by {
            assert(old(self).fields@[a] == Some(x));
            assert(old(self).contains(x));
        }
    }

    /// Lets the slot hold the object, or nothing.
    pub fn store(&mut self, slot: usize, value: Option<ObjectReference>)
        requires
            old(self).wf(),
            old(self).fields@.dom().contains(slot),
            value matches Some(x) ==> old(self).contains(x),
        ensures
            final(self).wf(),
            *final(self) == (Heap { fields: final(self).fields, ..*old(self) }),
            final(self).fields@ == old(self).fields@.insert(slot, value),
    {
        broadcast use vstd::std_specs::hash::group_hash_axioms;

        self.fields.insert(slot, value);
        assert(self.fields@.dom() =~= old(self).fields@.dom());
        assert forall|x: ObjectReference| old(self).contains(x) implies #[trigger] self.contains(
            x,
        ) by {}
        assert forall|a: usize, x: ObjectReference|
            #![trigger self.contains(x), self.fields@[a]]
            self.fields@.dom().contains(a) && self.fields@[a] == Some(x) implies self.contains(
            x,
        ) by {
            if a != slot {
                assert(old(self).fields@[a] == Some(x));
                assert(old(self).contains(x));
            }
        }
    }
}

} // verus!
