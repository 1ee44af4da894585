//! What the heap knows of its objects.

use crate::util::address::ObjectReference;
use crate::vm::heap::Heap;
use vstd::prelude::*;

verus! {

/// The heap is well-formed exactly if every object is found by its granule, the
/// index holds nothing else, objects end inside the address space, every slot of an
/// object has a value, and every reference leads to an object of the heap.
pub proof fn heap_is_consistent(heap: Heap)
    ensures
        heap.wf() <==> {
            &&& forall|k: int|
                #![trigger heap.objects@[k]]
                0 <= k < heap.objects@.len() ==> {
                    let g = (heap.objects@[k].object.addr / 16) as usize;
                    &&& heap.index@.dom().contains(g)
                    &&& heap.index@[g] == k
                    &&& heap.objects@[k].object.addr + heap.objects@[k].size <= usize::MAX
                }
            &&& forall|g: usize|
                #![trigger heap.index@[g]]
                heap.index@.dom().contains(g) ==> heap.index@[g] < heap.objects@.len()
                    && heap.objects@[heap.index@[g] as int].object.addr / 16 == g
            &&& forall|k: int, j: int|
                #![trigger heap.objects@[k].slots@[j]]
                0 <= k < heap.objects@.len() && 0 <= j < heap.objects@[k].slots@.len()
                    ==> heap.fields@.dom().contains(heap.objects@[k].slots@[j])
            &&& forall|a: usize, x: ObjectReference|
                #![trigger heap.contains(x), heap.fields@[a]]
                heap.fields@.dom().contains(a) && heap.fields@[a] == Some(x) ==> heap.contains(x)
        },
{
}

/// An object is in the heap exactly if it is one of its objects, and what is known
/// of it is what was said of that object.
pub proof fn heap_knows_its_objects(heap: Heap, o: ObjectReference)
    requires
        heap.wf(),
    ensures
        heap.contains(o) <==> exists|k: int|
            #![trigger heap.objects@[k]]
            0 <= k < heap.objects@.len() && heap.objects@[k].object == o,
        forall|k: int|
            #![trigger heap.objects@[k]]
            0 <= k < heap.objects@.len() && heap.objects@[k].object == o ==> heap.info(o)
                == heap.objects@[k] && heap.slots(o) == heap.objects@[k].slots@ && heap.place(o)
                == k,
{
    if heap.contains(o) {
        let k = heap.index@[(o.addr / 16) as usize];
        assert(heap.objects@[k as int].object == o);
    }
}

/// No two objects of the heap share a granule.
pub proof fn objects_lie_apart(heap: Heap, i: int, j: int)
    requires
        heap.wf(),
        0 <= i < j < heap.objects@.len(),
    ensures
        heap.objects@[i].object.addr / 16 != heap.objects@[j].object.addr / 16,
{
    let a = heap.objects@[i];
    let b = heap.objects@[j];
    assert(heap.index@[a.object.granule()] == i);
    assert(heap.index@[b.object.granule()] == j);
}

} // verus!
