//! Object references, and the lines and blocks that addresses fall into.

use vstd::prelude::*;

verus! {

/// Log2 of the smallest object size, and of the granule that side metadata is
/// kept for.
pub const LOG_MIN_OBJECT_SIZE: usize = 4;

/// The smallest object size in bytes.
pub const MIN_OBJECT_SIZE: usize = 16;

/// Log2 of the size of a line.
pub const LOG_BYTES_IN_LINE: usize = 8;

/// The size of a line in bytes.
pub const BYTES_IN_LINE: usize = 256;

/// Log2 of the size of a block.
pub const LOG_BYTES_IN_BLOCK: usize = 15;

/// The size of a block in bytes.
pub const BYTES_IN_BLOCK: usize = 32768;

/// A reference to an object: the address of the object.
#[derive(Clone, Copy, Debug, PartialEq, Eq, Structural, Hash)]
pub struct ObjectReference {
    /// The address of the object.
    pub addr: usize,
}

/// The granule that holds address `a`.
pub open spec fn granule_of(a: usize) -> usize {
    a / 16
}

/// The number of the line that holds address `a`.
pub open spec fn line_of(a: usize) -> usize {
    a / 256
}

/// The first address of the block that holds address `a`.
pub open spec fn block_start_of(a: usize) -> usize {
    ((a / 32768) * 32768) as usize
}

/// The granule that holds address `a`.
pub fn granule(a: usize) -> (r: usize)
    ensures
        r == granule_of(a),
{
    proof {
        assert(a >> 4usize == a / 16usize) by (bit_vector);
    }
    a >> LOG_MIN_OBJECT_SIZE
}

impl ObjectReference {
    /// The granule of the object.
    pub open spec fn granule(self) -> usize {
        granule_of(self.addr)
    }

    /// The reference to the object at address `addr`.
    pub fn from_raw_address(addr: usize) -> (r: ObjectReference)
        ensures
            r.addr == addr,
    {
        ObjectReference { addr }
    }

    /// The address of the object.
    pub fn to_raw_address(self) -> (r: usize)
        ensures
            r == self.addr,
    {
        self.addr
    }
}

/// A line of the heap, named by its number: its address divided by the size of
/// a line.
#[derive(Clone, Copy, Debug, PartialEq, Eq, Structural)]
pub struct Line {
    /// The number of the line.
    pub index: usize,
}

impl Line {
    /// Whether the line lies wholly inside the address space.
    pub open spec fn wf(self) -> bool {
        self.index * 256 <= usize::MAX
    }

    /// The line that holds address `a`.
    pub fn containing(a: usize) -> (r: Line)
        ensures
            r.index == line_of(a),
            r.wf(),
    {
        proof {
            assert(a >> 8usize == a / 256usize) by (bit_vector);
        }
        Line { index: a >> LOG_BYTES_IN_LINE }
    }

    /// The first address of the line.
    pub fn start(self) -> (r: usize)
        requires
            self.wf(),
        ensures
            r == self.index * 256,
            line_of(r) == self.index,
            granule_of(r) == self.index * 16,
    {
        self.index * BYTES_IN_LINE
    }

    /// Whether `a` is the first address of a line.
    pub fn is_aligned(a: usize) -> (r: bool)
        ensures
            r == (a % 256 == 0),
    {
        a % BYTES_IN_LINE == 0
    }
}

/// A block of the heap, named by its first address.
#[derive(Clone, Copy, Debug, PartialEq, Eq, Structural)]
pub struct Block {
    /// The first address of the block.
    pub start: usize,
}

impl Block {
    /// Whether the block is aligned and lies inside the address space.
    pub open spec fn wf(self) -> bool {
        &&& self.start % 32768 == 0
        &&& self.start + 32768 <= usize::MAX
    }

    /// The block that holds address `a`.
    pub fn containing(a: usize) -> (r: Block)
        ensures
            r.start == block_start_of(a),
    {
        Block { start: (a / BYTES_IN_BLOCK) * BYTES_IN_BLOCK }
    }
}

} // verus!
