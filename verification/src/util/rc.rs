//! Reference counts kept in side metadata.
//!
//! An object that is alive carries a bias of one: a count of 0 is a nursery or
//! dead object, 1 is an object in the middle of being reclaimed, and `n + 1` is
//! an object with `n` references.

use crate::util::address;
use crate::util::address::{granule, Block, Line, ObjectReference, BYTES_IN_LINE, MIN_OBJECT_SIZE};
use crate::util::side_metadata;
use crate::util::side_metadata::SideTable;
use crate::vm::heap::Heap;
use vstd::prelude::*;

verus! {

/// Log2 of the number of bits of a strong reference count.
pub const LOG_STRONG_REF_COUNT_BITS: usize = 2;

/// The largest strong reference count.
pub const MAX_STRONG_REF_COUNT: u8 = 15;

/// Log2 of the number of bits of a reference count.
pub const LOG_REF_COUNT_BITS: usize = 3;

/// The largest reference count that the table holds. An entry that reads so is
/// saturated: what exceeds it is in the overflow table.
pub const MAX_REF_COUNT: u8 = 255;

/// Colour of an object that no traversal holds.
pub const BLACK_OUT_OF_STACK: u8 = 0;

/// Colour of a live object that a traversal holds or deferred.
pub const BLACK_IN_STACK: u8 = 1;

/// Colour of an object whose references were taken away on trial.
pub const GREY: u8 = 2;

/// Colour of an object that nothing outside the traversed graph refers to.
pub const WHITE: u8 = 3;

/// The reference count of an object in the nursery, or of a dead one.
pub const RC_NURSERY_OR_DEAD: u8 = 0;

/// The reference count of an object that is being reclaimed.
pub const RC_DEATH_TRANSIENT: u8 = 1;

/// The reference count of an object with one reference left: a decrement from
/// here starts its reclamation.
pub const RC_DEATH_THRESHOLD: u8 = 2;

/// The strong count before the decrement that makes an object a candidate.
pub const STRONG_RC_LAST_BEFORE_ZERO: u8 = 1;

/// The strong count before a decrement that changes nothing.
pub const STRONG_RC_ALREADY_ZERO: u8 = 0;

/// The unlog bit of a slot that no barrier recorded since the last collection.
pub const UNLOGGED_VALUE: u8 = 1;

/// The unlog bit of a slot whose old value a barrier recorded.
pub const LOGGED_VALUE: u8 = 0;

/// The side metadata that reference counting and cycle collection share.
pub struct RcTables {
    /// Reference counts, by granule.
    pub rc: SideTable<u8>,
    /// By how much the count of a saturated object exceeds `MAX_REF_COUNT`, by
    /// granule.
    pub overflow_rc: SideTable<u32>,
    /// Strong reference counts, by granule.
    pub strong_rc: SideTable<u8>,
    /// Colours, by granule.
    pub obj_color: SideTable<u8>,
    /// For a candidate the number of its pool plus one, otherwise 0, by granule.
    pub candidates_status: SideTable<u8>,
    /// Whether a line is covered by an object that starts in an earlier line.
    pub rc_straddle_lines: SideTable<u8>,
    /// In how many collections an object was found dead by a sanity trace, by
    /// granule.
    pub sanity_dead_cycle_count: SideTable<u8>,
    /// The unlog bits, by slot address.
    pub field_unlog: SideTable<u8>,
    /// How many slots wait in increment buffers.
    pub inc_buffer_size: usize,
}

/// The reference counts of all granules: the table and the excess.
#[verifier::ext_equal]
pub struct Counts {
    /// The table of counts.
    pub rc: Map<usize, u8>,
    /// The excess over `MAX_REF_COUNT`.
    pub excess: Map<usize, u32>,
}

impl Counts {
    /// The reference count of granule `g`.
    pub open spec fn count(self, g: usize) -> nat {
        if self.rc[g] == 255 {
            255 + self.excess[g] as nat
        } else {
            self.rc[g] as nat
        }
    }

    /// Only a saturated granule has an excess.
    pub open spec fn wf(self) -> bool {
        forall|g: usize| #![trigger self.excess[g]] self.excess[g] != 0 ==> self.rc[g] == 255
    }

    /// The counts after one more reference to granule `g`. An excess at the end
    /// of its range wraps.
    pub open spec fn inc(self, g: usize) -> Counts {
        if self.rc[g] != 255 {
            Counts { rc: self.rc.insert(g, (self.rc[g] + 1) as u8), excess: self.excess }
        } else if self.excess[g] == u32::MAX {
            Counts { rc: self.rc, excess: self.excess.insert(g, 0) }
        } else {
            Counts { rc: self.rc, excess: self.excess.insert(g, (self.excess[g] + 1) as u32) }
        }
    }

    /// The counts after one reference less to granule `g`. A count of 0 stays.
    pub open spec fn dec(self, g: usize) -> Counts {
        if self.rc[g] == 0 {
            self
        } else if self.rc[g] != 255 || self.excess[g] == 0 {
            Counts { rc: self.rc.insert(g, (self.rc[g] - 1) as u8), excess: self.excess }
        } else {
            Counts { rc: self.rc, excess: self.excess.insert(g, (self.excess[g] - 1) as u32) }
        }
    }
}

/// A strong count after an increment: it stops at the largest.
pub open spec fn strong_inc(n: u8) -> u8 {
    if n >= 15 {
        n
    } else {
        (n + 1) as u8
    }
}

/// A strong count after a decrement: it stops at zero.
pub open spec fn strong_dec(n: u8) -> u8 {
    if n == 0 {
        n
    } else {
        (n - 1) as u8
    }
}

/// The lines after the first that an object of `size` bytes at `a` reaches
/// into, the last one left out.
pub open spec fn straddles(a: usize, size: usize, line: usize) -> bool {
    address::line_of(a) < line < (a + size) / 256
}

/// `table` with `v` in every line that an object of `size` bytes at `a`
/// straddles.
pub open spec fn fill_lines(table: Map<usize, u8>, a: usize, size: usize, v: u8) -> Map<usize, u8> {
    Map::total(
        |l: usize|
            if straddles(a, size, l) {
                v
            } else {
                table[l]
            },
    )
}

/// `table` with `v` in the first granule of every line that an object of `size`
/// bytes at `a` straddles.
pub open spec fn fill_line_granules(
    table: Map<usize, u8>,
    a: usize,
    size: usize,
    v: u8,
) -> Map<usize, u8> {
    Map::total(
        |g: usize|
            if g % 16 == 0 && straddles(a, size, (g / 16) as usize) {
                v
            } else {
                table[g]
            },
    )
}

impl RcTables {
    /// The narrow tables hold only what their entries have bits for.
    pub open spec fn wf(&self) -> bool {
        &&& forall|g: usize| #![trigger self.strong_rc@[g]] self.strong_rc@[g] <= 15
        &&& forall|g: usize| #![trigger self.obj_color@[g]] self.obj_color@[g] <= 3
        &&& forall|g: usize|
            #![trigger self.candidates_status@[g]]
            self.candidates_status@[g] <= 3
        &&& forall|a: usize| #![trigger self.field_unlog@[a]] self.field_unlog@[a] <= 1
    }

    /// Whether the narrow tables hold only what their entries have bits for.
    pub fn is_well_formed(&self) -> (r: bool)
        ensures
            r == self.wf(),
    {
        self.strong_rc.is_at_most(15) && self.obj_color.is_at_most(3)
            && self.candidates_status.is_at_most(3) && self.field_unlog.is_at_most(1)
    }

    /// The reference counts.
    pub open spec fn counts(&self) -> Counts {
        Counts { rc: self.rc@, excess: self.overflow_rc@ }
    }

    /// Tables of an empty heap: all counts zero, every object black, no
    /// candidate, and every slot logged.
    pub fn new() -> (r: RcTables)
        ensures
            r.wf(),
            r.counts().wf(),
            r.rc@ == Map::total(|g: usize| 0u8),
            r.overflow_rc@ == Map::total(|g: usize| 0u32),
            r.strong_rc@ == Map::total(|g: usize| 0u8),
            r.obj_color@ == Map::total(|g: usize| BLACK_OUT_OF_STACK),
            r.candidates_status@ == Map::total(|g: usize| 0u8),
            r.rc_straddle_lines@ == Map::total(|g: usize| 0u8),
            r.sanity_dead_cycle_count@ == Map::total(|g: usize| 0u8),
            r.field_unlog@ == Map::total(|g: usize| LOGGED_VALUE),
            r.inc_buffer_size == 0,
    {
        RcTables {
            rc: SideTable::new(0),
            overflow_rc: SideTable::new(0),
            strong_rc: SideTable::new(0),
            obj_color: SideTable::new(BLACK_OUT_OF_STACK),
            candidates_status: SideTable::new(0),
            rc_straddle_lines: SideTable::new(0),
            sanity_dead_cycle_count: SideTable::new(0),
            field_unlog: SideTable::new(LOGGED_VALUE),
            inc_buffer_size: 0,
        }
    }
}

/// Access to the reference counts in the tables.
#[derive(Clone, Copy, Debug)]
pub struct RefCountHelper;

impl RefCountHelper {
    /// How many slots wait in increment buffers.
    pub fn inc_buffer_size(&self, t: &RcTables) -> (r: usize)
        ensures
            r == t.inc_buffer_size,
    {
        t.inc_buffer_size
    }

    /// Records that `delta` more slots wait. The number stops at its largest
    /// value.
    pub fn increase_inc_buffer_size(&self, t: &mut RcTables, delta: usize)
        ensures
            *final(t) == (RcTables { inc_buffer_size: final(t).inc_buffer_size, ..*old(t) }),
            old(t).inc_buffer_size + delta <= usize::MAX ==> final(t).inc_buffer_size
                == old(t).inc_buffer_size + delta,
            old(t).inc_buffer_size + delta > usize::MAX ==> final(t).inc_buffer_size == usize::MAX,
    {
        t.inc_buffer_size = t.inc_buffer_size.saturating_add(delta);
    }

    /// Records that no slot waits.
    pub fn reset_inc_buffer_size(&self, t: &mut RcTables)
        ensures
            *final(t) == (RcTables { inc_buffer_size: 0, ..*old(t) }),
    {
        t.inc_buffer_size = 0;
    }

    /// Replaces the count of `o` by what `f` makes of it. Where `f` gives
    /// nothing, the count stays and is returned as the error.
    pub fn fetch_update<F: Fn(u8) -> Option<u8>>(
        &self,
        t: &mut RcTables,
        o: ObjectReference,
        f: F,
    ) -> (r: Result<u8, u8>)
        requires
            f.requires((old(t).rc@[o.granule()],)),
        ensures
            *final(t) == (RcTables { rc: final(t).rc, ..*old(t) }),
            match r {
                Ok(prev) => {
                    &&& prev == old(t).rc@[o.granule()]
                    &&& f.ensures((prev,), Some(final(t).rc@[o.granule()]))
                    &&& final(t).rc@ == old(t).rc@.insert(
                        o.granule(),
                        final(t).rc@[o.granule()],
                    )
                },
                Err(prev) => {
                    &&& prev == old(t).rc@[o.granule()]
                    &&& f.ensures((prev,), None)
                    &&& *final(t) == *old(t)
                },
            },
    {
        let g: usize = granule(o.addr);
        let prev: u8 = t.rc.load(g);
        match f(prev) {
            Some(n) => {
                t.rc.store(g, n);
                Ok(prev)
            },
            None => Err(prev),
        }
    }

    /// Whether the count of `o` is saturated.
    pub fn is_stuck(&self, t: &RcTables, o: ObjectReference) -> (r: bool)
        ensures
            r == (t.rc@[o.granule()] == MAX_REF_COUNT),
    {
        self.count(t, o) == MAX_REF_COUNT
    }

    /// Saturates the count of `o`. It is an error if it was saturated already.
    pub fn stick(&self, t: &mut RcTables, o: ObjectReference) -> (r: Result<u8, u8>)
        ensures
            *final(t) == (RcTables { rc: final(t).rc, ..*old(t) }),
            final(t).rc@ == old(t).rc@.insert(o.granule(), MAX_REF_COUNT),
            r == (if old(t).rc@[o.granule()] == MAX_REF_COUNT {
                Err::<u8, u8>(MAX_REF_COUNT)
            } else {
                Ok::<u8, u8>(old(t).rc@[o.granule()])
            }),
    {
        broadcast use side_metadata::table_is_total;

        let f = |x: u8| -> (n: Option<u8>)
            ensures
                x == MAX_REF_COUNT ==> n is None,
                x != MAX_REF_COUNT ==> n == Some(MAX_REF_COUNT)
        {
            if x == MAX_REF_COUNT {
                None
            } else {
                Some(MAX_REF_COUNT)
            }
        };
        let r = self.fetch_update(t, o, f);
        assert(t.rc@ =~= old(t).rc@.insert(o.granule(), MAX_REF_COUNT));
        r
    }

    /// Adds one to the count of `o`. A saturated count stays, which is an error.
    pub fn inc(&self, t: &mut RcTables, o: ObjectReference) -> (r: Result<u8, u8>)
        ensures
            *final(t) == (RcTables { rc: final(t).rc, ..*old(t) }),
            old(t).rc@[o.granule()] == MAX_REF_COUNT ==> r == Err::<u8, u8>(MAX_REF_COUNT)
                && final(t).rc@ == old(t).rc@,
            old(t).rc@[o.granule()] != MAX_REF_COUNT ==> r == Ok::<u8, u8>(old(t).rc@[o.granule()])
                && final(t).rc@ == old(t).rc@.insert(
                o.granule(),
                (old(t).rc@[o.granule()] + 1) as u8,
            ),
    {
        let f = |x: u8| -> (n: Option<u8>)
            ensures
                x == MAX_REF_COUNT ==> n is None,
                x != MAX_REF_COUNT ==> n == Some((x + 1) as u8)
        {
            if x == MAX_REF_COUNT {
                None
            } else {
                Some(x + 1)
            }
        };
        self.fetch_update(t, o, f)
    }

    /// Takes one from the count of `o`. A count of 0 and a saturated one stay,
    /// which is an error.
    pub fn dec(&self, t: &mut RcTables, o: ObjectReference) -> (r: Result<u8, u8>)
        ensures
            *final(t) == (RcTables { rc: final(t).rc, ..*old(t) }),
            old(t).rc@[o.granule()] == 0 || old(t).rc@[o.granule()] == MAX_REF_COUNT ==> r == Err::<
                u8,
                u8,
            >(old(t).rc@[o.granule()]) && final(t).rc@ == old(t).rc@,
            old(t).rc@[o.granule()] != 0 && old(t).rc@[o.granule()] != MAX_REF_COUNT ==> r == Ok::<
                u8,
                u8,
            >(old(t).rc@[o.granule()]) && final(t).rc@ == old(t).rc@.insert(
                o.granule(),
                (old(t).rc@[o.granule()] - 1) as u8,
            ),
    {
        let f = |x: u8| -> (n: Option<u8>)
            ensures
                x == 0 || x == MAX_REF_COUNT ==> n is None,
                x != 0 && x != MAX_REF_COUNT ==> n == Some((x - 1) as u8)
        {
            if x == 0 || x == MAX_REF_COUNT {
                None
            } else {
                Some(x - 1)
            }
        };
        self.fetch_update(t, o, f)
    }

    /// Takes one from the count of `o`, whatever it is, and returns what it was.
    /// A count of 0 wraps.
    pub fn dec_unconditionally(&self, t: &mut RcTables, o: ObjectReference) -> (r: u8)
        ensures
            *final(t) == (RcTables { rc: final(t).rc, ..*old(t) }),
            r == old(t).rc@[o.granule()],
            final(t).rc@ == old(t).rc@.insert(
                o.granule(),
                if r == 0 {
                    255
                } else {
                    (r - 1) as u8
                },
            ),
    {
        let g: usize = granule(o.addr);
        let prev: u8 = t.rc.load(g);
        t.rc.store(g, prev.wrapping_sub(1));
        prev
    }

    /// Sets the count of `o`.
    pub fn set(&self, t: &mut RcTables, o: ObjectReference, count: u8)
        ensures
            *final(t) == (RcTables { rc: final(t).rc, ..*old(t) }),
            final(t).rc@ == old(t).rc@.insert(o.granule(), count),
    {
        t.rc.store(granule(o.addr), count);
    }

    /// Sets the count of `o` where no other thread looks at it.
    pub fn set_relaxed(&self, t: &mut RcTables, o: ObjectReference, count: u8)
        ensures
            *final(t) == (RcTables { rc: final(t).rc, ..*old(t) }),
            final(t).rc@ == old(t).rc@.insert(o.granule(), count),
    {
        t.rc.store(granule(o.addr), count);
    }

    /// The count of `o` in the table.
    pub fn count(&self, t: &RcTables, o: ObjectReference) -> (r: u8)
        ensures
            r == t.rc@[o.granule()],
    {
        t.rc.load(granule(o.addr))
    }

    /// Whether the count of the granule at `o` is zero.
    pub fn object_or_line_is_dead(&self, t: &RcTables, o: ObjectReference) -> (r: bool)
        ensures
            r == (t.rc@[o.granule()] == 0),
    {
        t.rc.load(granule(o.addr)) == 0
    }

    /// Whether the count of `o` is zero.
    pub fn is_dead(&self, t: &RcTables, o: ObjectReference) -> (r: bool)
        ensures
            r == (t.rc@[o.granule()] == 0),
    {
        let v: u8 = t.rc.load(granule(o.addr));
        v == 0
    }

    /// Whether the count of `o` is zero or saturated.
    pub fn is_dead_or_stuck(&self, t: &RcTables, o: ObjectReference) -> (r: bool)
        ensures
            r == (t.rc@[o.granule()] == 0 || t.rc@[o.granule()] == MAX_REF_COUNT),
    {
        let v: u8 = t.rc.load(granule(o.addr));
        v == 0 || v == MAX_REF_COUNT
    }

    /// The counts of the granules of the block, in order.
    pub fn rc_table_range(&self, t: &RcTables, b: Block) -> (r: Vec<u8>)
        requires
            b.wf(),
        ensures
            r@.len() == 2048,
            forall|i: int|
                #![trigger r@[i]]
                0 <= i < 2048 ==> r@[i] == t.rc@[(b.start / 16 + i) as usize],
    {
        let first: usize = granule(b.start);
        let mut r: Vec<u8> = Vec::new();
        let mut i: usize = 0;
        while i < 2048
            invariant
                i <= 2048,
                first == b.start / 16,
                r@.len() == i,
                forall|k: int|
                    #![trigger r@[k]]
                    0 <= k < i ==> r@[k] == t.rc@[(b.start / 16 + k) as usize],
            decreases 2048 - i,
        {
            r.push(t.rc.load(first + i));
            i = i + 1;
        }
        r
    }

    /// Whether `line` is covered by an object that starts in an earlier line.
    pub fn is_straddle_line(&self, t: &RcTables, line: Line) -> (r: bool)
        ensures
            r == (t.rc_straddle_lines@[line.index] != 0),
    {
        t.rc_straddle_lines.load(line.index) != 0
    }

    /// Whether address `a` has a count and lies in a line that an object from an
    /// earlier line covers.
    pub fn address_is_in_straddle_line(&self, t: &RcTables, a: usize) -> (r: bool)
        ensures
            r == (t.rc@[address::granule_of(a)] != 0 && t.rc_straddle_lines@[address::line_of(a)] != 0),
    {
        let line = Line::containing(a);
        self.count(t, ObjectReference { addr: a }) != 0 && self.is_straddle_line(t, line)
    }

    /// Marks the lines that an object of `size` bytes straddles, and gives each
    /// of them a count of 1 so that it does not look free.
    fn mark_straddle_object_with_size(&self, t: &mut RcTables, o: ObjectReference, size: usize)
        requires
            size > BYTES_IN_LINE,
            o.addr + size <= usize::MAX,
        ensures
            *final(t) == (RcTables {
                rc: final(t).rc,
                rc_straddle_lines: final(t).rc_straddle_lines,
                ..*old(t)
            }),
            final(t).rc_straddle_lines@ == fill_lines(old(t).rc_straddle_lines@, o.addr, size, 1),
            final(t).rc@ == fill_line_granules(old(t).rc@, o.addr, size, 1),
    {
        self.fill_straddle_lines(t, o, size, 1);
    }

    /// Writes `v` to the lines that an object of `size` bytes straddles, in the
    /// table of straddled lines and in that of the counts.
    fn fill_straddle_lines(&self, t: &mut RcTables, o: ObjectReference, size: usize, v: u8)
        requires
            size > BYTES_IN_LINE,
            o.addr + size <= usize::MAX,
        ensures
            *final(t) == (RcTables {
                rc: final(t).rc,
                rc_straddle_lines: final(t).rc_straddle_lines,
                ..*old(t)
            }),
            final(t).rc_straddle_lines@ == fill_lines(old(t).rc_straddle_lines@, o.addr, size, v),
            final(t).rc@ == fill_line_granules(old(t).rc@, o.addr, size, v),
    {
        broadcast use side_metadata::table_is_total;

        let start_line: usize = Line::containing(o.addr).index + 1;
        let end_line: usize = Line::containing(o.addr + size).index;
        let mut line: usize = start_line;
        while line != end_line
            invariant
                o.addr + size <= usize::MAX,
                start_line == address::line_of(o.addr) + 1,
                end_line == (o.addr + size) / 256,
                start_line <= line <= end_line,
                *t == (RcTables { rc: t.rc, rc_straddle_lines: t.rc_straddle_lines, ..*old(t) }),
                forall|l: usize|
                    #![trigger t.rc_straddle_lines@[l]]
                    t.rc_straddle_lines@[l] == (if start_line <= l < line {
                        v
                    } else {
                        old(t).rc_straddle_lines@[l]
                    }),
                forall|g: usize|
                    #![trigger t.rc@[g]]
                    t.rc@[g] == (if g % 16 == 0 && start_line <= g / 16 < line {
                        v
                    } else {
                        old(t).rc@[g]
                    }),
            decreases end_line - line,
        {
            let start: usize = Line { index: line }.start();
            t.rc_straddle_lines.store(line, v);
            self.set_relaxed(t, ObjectReference { addr: start }, v);
            line = line + 1;
        }
        assert(t.rc_straddle_lines@ =~= fill_lines(old(t).rc_straddle_lines@, o.addr, size, v));
        assert(t.rc@ =~= fill_line_granules(old(t).rc@, o.addr, size, v));
    }

    /// Marks the lines that the object `o` straddles.
    pub fn mark_straddle_object(&self, t: &mut RcTables, heap: &Heap, o: ObjectReference)
        requires
            heap.wf(),
            heap.contains(o),
            heap.info(o).size > BYTES_IN_LINE,
        ensures
            *final(t) == (RcTables {
                rc: final(t).rc,
                rc_straddle_lines: final(t).rc_straddle_lines,
                ..*old(t)
            }),
            final(t).rc_straddle_lines@ == fill_lines(
                old(t).rc_straddle_lines@,
                o.addr,
                heap.info(o).size,
                1,
            ),
            final(t).rc@ == fill_line_granules(old(t).rc@, o.addr, heap.info(o).size, 1),
    {
        let size: usize = heap.get(o).size;
        self.mark_straddle_object_with_size(t, o, size)
    }

    /// Clears the lines that the object `o` straddles, and their counts. An
    /// object of a line or less straddles none.
    pub fn unmark_straddle_object(&self, t: &mut RcTables, heap: &Heap, o: ObjectReference)
        requires
            heap.wf(),
            heap.contains(o),
        ensures
            *final(t) == (RcTables {
                rc: final(t).rc,
                rc_straddle_lines: final(t).rc_straddle_lines,
                ..*old(t)
            }),
            heap.info(o).size <= BYTES_IN_LINE ==> *final(t) == *old(t),
            heap.info(o).size > BYTES_IN_LINE ==> final(t).rc_straddle_lines@ == fill_lines(
                old(t).rc_straddle_lines@,
                o.addr,
                heap.info(o).size,
                0,
            ) && final(t).rc@ == fill_line_granules(old(t).rc@, o.addr, heap.info(o).size, 0),
    {
        let size: usize = heap.get(o).size;
        if size > BYTES_IN_LINE {
            self.fill_straddle_lines(t, o, size, 0);
        }
    }

    /// Whether the count of every granule of the object `o` is zero.
    pub fn assert_zero_ref_count(&self, t: &RcTables, heap: &Heap, o: ObjectReference) -> (r: bool)
        requires
            heap.wf(),
            heap.contains(o),
        ensures
            r == (forall|i: int|
                #![trigger t.rc@[address::granule_of((o.addr + i) as usize)]]
                0 <= i < heap.info(o).size && i % 16 == 0 ==> t.rc@[address::granule_of(
                    (o.addr + i) as usize,
                )] == 0),
    {
        let size: usize = heap.get(o).size;
        let mut i: usize = 0;
        while i < size
            invariant
                o.addr + size <= usize::MAX,
                size == heap.info(o).size,
                i % 16 == 0,
                i <= size + 15,
                forall|k: int|
                    #![trigger t.rc@[address::granule_of((o.addr + k) as usize)]]
                    0 <= k < i && k < size && k % 16 == 0 ==> t.rc@[address::granule_of(
                        (o.addr + k) as usize,
                    )] == 0,
            decreases size + 15 - i,
        {
            let a: usize = o.addr + i;
            if self.count(t, ObjectReference { addr: a }) != 0 {
                assert(t.rc@[address::granule_of((o.addr + i as int) as usize)] != 0);
                return false;
            }
            if size - i <= MIN_OBJECT_SIZE {
                return true;
            }
            i = i + MIN_OBJECT_SIZE;
        }
        true
    }

    /// Promotes the object `o` out of the nursery: its start is logged, and the
    /// lines that it straddles are marked.
    pub fn promote(&self, t: &mut RcTables, heap: &Heap, o: ObjectReference)
        requires
            heap.wf(),
            heap.contains(o),
        ensures
            promoted(*old(t), *final(t), o, heap.info(o).size),
    {
        let size: usize = heap.get(o).size;
        self.promote_with_size(t, o, size);
    }

    /// Promotes the object `o` of `size` bytes out of the nursery.
    pub fn promote_with_size(&self, t: &mut RcTables, o: ObjectReference, size: usize)
        requires
            o.addr + size <= usize::MAX,
        ensures
            promoted(*old(t), *final(t), o, size),
    {
        t.field_unlog.store(o.addr, LOGGED_VALUE);
        if size > BYTES_IN_LINE {
            self.mark_straddle_object_with_size(t, o, size);
        }
    }

    /// Adds one to the strong count of `o`. At the largest it stays, which is an
    /// error.
    pub fn strong_rc_inc(&self, t: &mut RcTables, o: ObjectReference) -> (r: Result<u8, u8>)
        requires
            old(t).wf(),
        ensures
            final(t).wf(),
            *final(t) == (RcTables { strong_rc: final(t).strong_rc, ..*old(t) }),
            final(t).strong_rc@ == old(t).strong_rc@.insert(
                o.granule(),
                strong_inc(old(t).strong_rc@[o.granule()]),
            ),
            r == (if old(t).strong_rc@[o.granule()] == MAX_STRONG_REF_COUNT {
                Err::<u8, u8>(MAX_STRONG_REF_COUNT)
            } else {
                Ok::<u8, u8>(old(t).strong_rc@[o.granule()])
            }),
    {
        let prev: u8 = self.strong_rc_inc_exclusive(t, o);
        if prev == MAX_STRONG_REF_COUNT {
            Err(prev)
        } else {
            Ok(prev)
        }
    }

    /// Takes one from the strong count of `o`. At zero it stays, which is an
    /// error.
    pub fn strong_rc_dec(&self, t: &mut RcTables, o: ObjectReference) -> (r: Result<u8, u8>)
        requires
            old(t).wf(),
        ensures
            final(t).wf(),
            *final(t) == (RcTables { strong_rc: final(t).strong_rc, ..*old(t) }),
            final(t).strong_rc@ == old(t).strong_rc@.insert(
                o.granule(),
                strong_dec(old(t).strong_rc@[o.granule()]),
            ),
            r == (if old(t).strong_rc@[o.granule()] == 0 {
                Err::<u8, u8>(STRONG_RC_ALREADY_ZERO)
            } else {
                Ok::<u8, u8>(old(t).strong_rc@[o.granule()])
            }),
    {
        let prev: u8 = self.strong_rc_dec_exclusive(t, o);
        if prev == 0 {
            Err(prev)
        } else {
            Ok(prev)
        }
    }

    /// [`Self::dec_unconditionally`] for a thread that is alone with the table.
    pub fn dec_unconditionally_exclusive(&self, t: &mut RcTables, o: ObjectReference) -> (r: u8)
        ensures
            *final(t) == (RcTables { rc: final(t).rc, ..*old(t) }),
            r == old(t).rc@[o.granule()],
            final(t).rc@ == old(t).rc@.insert(
                o.granule(),
                if r == 0 {
                    255
                } else {
                    (r - 1) as u8
                },
            ),
    {
        let g: usize = granule(o.addr);
        let prev: u8 = t.rc.load(g);
        t.rc.store(g, prev.wrapping_sub(1));
        prev
    }

    /// Adds one to the count of `o` and returns what it was. A saturated count
    /// stays. For a thread that is alone with the table.
    pub fn inc_exclusive(&self, t: &mut RcTables, o: ObjectReference) -> (r: u8)
        ensures
            *final(t) == (RcTables { rc: final(t).rc, ..*old(t) }),
            r == old(t).rc@[o.granule()],
            r == MAX_REF_COUNT ==> final(t).rc@ == old(t).rc@,
            r != MAX_REF_COUNT ==> final(t).rc@ == old(t).rc@.insert(o.granule(), (r + 1) as u8),
    {
        let g: usize = granule(o.addr);
        let prev: u8 = t.rc.load(g);
        if prev == MAX_REF_COUNT {
            return prev;
        }
        t.rc.store(g, prev + 1);
        prev
    }

    /// Takes one from the count of `o` and returns what it was. A count of 0 and
    /// a saturated one stay. For a thread that is alone with the table.
    pub fn dec_exclusive(&self, t: &mut RcTables, o: ObjectReference) -> (r: u8)
        ensures
            *final(t) == (RcTables { rc: final(t).rc, ..*old(t) }),
            r == old(t).rc@[o.granule()],
            r == 0 || r == MAX_REF_COUNT ==> final(t).rc@ == old(t).rc@,
            r != 0 && r != MAX_REF_COUNT ==> final(t).rc@ == old(t).rc@.insert(
                o.granule(),
                (r - 1) as u8,
            ),
    {
        let g: usize = granule(o.addr);
        let prev: u8 = t.rc.load(g);
        if prev == 0 || prev == MAX_REF_COUNT {
            return prev;
        }
        t.rc.store(g, prev - 1);
        prev
    }

    /// Adds one to the strong count of `o` and returns what it was. The largest
    /// count stays. For a thread that is alone with the table.
    pub fn strong_rc_inc_exclusive(&self, t: &mut RcTables, o: ObjectReference) -> (r: u8)
        requires
            old(t).wf(),
        ensures
            final(t).wf(),
            *final(t) == (RcTables { strong_rc: final(t).strong_rc, ..*old(t) }),
            r == old(t).strong_rc@[o.granule()],
            final(t).strong_rc@ == old(t).strong_rc@.insert(o.granule(), strong_inc(r)),
    {
        broadcast use side_metadata::table_is_total;

        let g: usize = granule(o.addr);
        let prev: u8 = t.strong_rc.load(g);
        if prev == MAX_STRONG_REF_COUNT {
            assert(t.strong_rc@ =~= old(t).strong_rc@.insert(o.granule(), strong_inc(prev)));
            return prev;
        }
        t.strong_rc.store(g, prev + 1);
        prev
    }

    /// Takes one from the strong count of `o` and returns what it was. Zero
    /// stays. For a thread that is alone with the table.
    pub fn strong_rc_dec_exclusive(&self, t: &mut RcTables, o: ObjectReference) -> (r: u8)
        requires
            old(t).wf(),
        ensures
            final(t).wf(),
            *final(t) == (RcTables { strong_rc: final(t).strong_rc, ..*old(t) }),
            r == old(t).strong_rc@[o.granule()],
            final(t).strong_rc@ == old(t).strong_rc@.insert(o.granule(), strong_dec(r)),
    {
        broadcast use side_metadata::table_is_total;

        let g: usize = granule(o.addr);
        let prev: u8 = t.strong_rc.load(g);
        if prev == 0 {
            assert(t.strong_rc@ =~= old(t).strong_rc@.insert(o.granule(), strong_dec(prev)));
            return prev;
        }
        t.strong_rc.store(g, prev - 1);
        prev
    }
}

/// What promoting the object `o` of `size` bytes does to the tables.
pub open spec fn promoted(old: RcTables, new: RcTables, o: ObjectReference, size: usize) -> bool {
    &&& new == (RcTables {
        rc: new.rc,
        rc_straddle_lines: new.rc_straddle_lines,
        field_unlog: new.field_unlog,
        ..old
    })
    &&& new.field_unlog@ == old.field_unlog@.insert(o.addr, LOGGED_VALUE)
    &&& if size > BYTES_IN_LINE {
        &&& new.rc_straddle_lines@ == fill_lines(old.rc_straddle_lines@, o.addr, size, 1)
        &&& new.rc@ == fill_line_granules(old.rc@, o.addr, size, 1)
    } else {
        &&& new.rc_straddle_lines@ == old.rc_straddle_lines@
        &&& new.rc@ == old.rc@
    }
}

} // verus!
