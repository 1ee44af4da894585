//! The kinds of pause that a collection can take.

use vstd::prelude::*;

verus! {

/// A kind of pause.
#[derive(Clone, Copy, Debug, PartialEq, Eq, Structural)]
pub enum Pause {
    /// A full trace.
    Full,
    /// A full trace that also moves objects.
    FullDefrag,
    /// Reference counting.
    RefCount,
    /// The first pause of a concurrent trace.
    InitialMark,
    /// The last pause of a concurrent trace.
    FinalMark,
    /// The reference counting pipeline with its concurrent tail inside the
    /// pause. Nothing is traced.
    FullRC,
}

impl Pause {
    /// The number that stands for the pause where it is stored in a byte.
    pub open spec fn spec_code(self) -> u8 {
        match self {
            Pause::Full => 1,
            Pause::FullDefrag => 2,
            Pause::RefCount => 3,
            Pause::InitialMark => 4,
            Pause::FinalMark => 5,
            Pause::FullRC => 6,
        }
    }

    /// The number that stands for the pause where it is stored in a byte. Zero
    /// is left for the absence of a pause.
    pub fn code(self) -> (r: u8)
        ensures
            r == self.spec_code(),
    {
        match self {
            Pause::Full => 1,
            Pause::FullDefrag => 2,
            Pause::RefCount => 3,
            Pause::InitialMark => 4,
            Pause::FinalMark => 5,
            Pause::FullRC => 6,
        }
    }
}

/// No two pauses share a number, and none has the number of an absent pause.
pub proof fn codes_are_distinct(a: Pause, b: Pause)
    ensures
        a.spec_code() != 0,
        a.spec_code() == b.spec_code() ==> a == b,
{
}

} // verus!
