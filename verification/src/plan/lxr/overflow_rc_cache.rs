//! Exact reference counts for objects whose entry in the table of counts is
//! saturated.
//!
//! What exceeds `MAX_REF_COUNT` is in the overflow table, which is looked at
//! only where the table of counts reads `MAX_REF_COUNT`. An excess of 0 means
//! that the count is exactly `MAX_REF_COUNT`, so nothing is ever inserted or
//! removed: the first increment over the limit is an increment like any other.

use crate::plan::lxr::rc_path_stats::RcPathStats;
use crate::util::address::{granule, ObjectReference};
use crate::util::rc::{Counts, RcTables, RefCountHelper, MAX_REF_COUNT, RC_DEATH_TRANSIENT};
use vstd::prelude::*;

verus! {

/// The largest count that the table of counts holds by itself.
const MAX_RC: u64 = 255;

/// Reference counts without an upper limit.
pub struct RefCountWithOverflow {
    /// How many objects have an excess.
    pub overflowed: usize,
    /// Access to the table of counts.
    pub rc: RefCountHelper,
}

/// The granules with an excess.
pub open spec fn overflowed_granules(c: Counts) -> Set<usize> {
    Set::new(|g: usize| c.excess[g] != 0)
}

/// The number of overflowed objects after an increment at granule `g`.
pub open spec fn overflowed_after_inc(c: Counts, n: usize, g: usize) -> usize {
    if c.rc[g] == 255 && c.excess[g] == 0 {
        n.wrapping_add(1)
    } else {
        n
    }
}

/// The number of overflowed objects after a decrement at granule `g`.
pub open spec fn overflowed_after_dec(c: Counts, n: usize, g: usize) -> usize {
    if c.rc[g] == 255 && c.excess[g] == 1 {
        n.wrapping_sub(1)
    } else {
        n
    }
}

impl RefCountWithOverflow {
    /// Counts of which none is over the limit.
    pub fn new() -> (r: RefCountWithOverflow)
        ensures
            r.overflowed == 0,
    {
        RefCountWithOverflow { overflowed: 0, rc: RefCountHelper }
    }

    /// By how much the count of `o` exceeds the limit.
    fn excess(&self, t: &RcTables, o: ObjectReference) -> (r: u32)
        ensures
            r == t.overflow_rc@[o.granule()],
    {
        t.overflow_rc.load(granule(o.addr))
    }

    /// Adds one to the count of `o` and returns what it was.
    pub fn inc(&mut self, t: &mut RcTables, o: ObjectReference) -> (r: u64)
        ensures
            r == old(t).counts().count(o.granule()),
            *final(t) == (RcTables {
                rc: final(t).rc,
                overflow_rc: final(t).overflow_rc,
                ..*old(t)
            }),
            final(t).counts() == old(t).counts().inc(o.granule()),
            final(self).overflowed == overflowed_after_inc(
                old(t).counts(),
                old(self).overflowed,
                o.granule(),
            ),
    {
        match self.rc.inc(t, o) {
            Ok(prev) => prev as u64,
            Err(_) => {
                let prev: u32 = self.excess(t, o);
                t.overflow_rc.store(granule(o.addr), prev.wrapping_add(1));
                if prev == 0 {
                    self.overflowed = self.overflowed.wrapping_add(1);
                }
                MAX_RC + prev as u64
            },
        }
    }

    /// Takes one from the count of `o` and returns what it was.
    pub fn dec(&mut self, t: &mut RcTables, o: ObjectReference) -> (r: u64)
        requires
            old(t).rc@[o.granule()] != 0,
        ensures
            r == old(t).counts().count(o.granule()),
            *final(t) == (RcTables {
                rc: final(t).rc,
                overflow_rc: final(t).overflow_rc,
                ..*old(t)
            }),
            final(t).counts() == old(t).counts().dec(o.granule()),
            final(self).overflowed == overflowed_after_dec(
                old(t).counts(),
                old(self).overflowed,
                o.granule(),
            ),
    {
        match self.rc.dec(t, o) {
            Ok(prev) => prev as u64,
            Err(_) => {
                let cur: u32 = self.excess(t, o);
                if cur > 0 {
                    t.overflow_rc.store(granule(o.addr), cur - 1);
                    if cur == 1 {
                        self.overflowed = self.overflowed.wrapping_sub(1);
                    }
                    return MAX_RC + cur as u64;
                }
                // The count was exactly the limit: the table itself steps down.
                self.rc.dec_unconditionally(t, o) as u64
            },
        }
    }

    /// [`Self::inc`] for a thread that is alone with the tables.
    pub fn inc_exclusive(&mut self, t: &mut RcTables, o: ObjectReference) -> (r: u64)
        ensures
            r == old(t).counts().count(o.granule()),
            *final(t) == (RcTables {
                rc: final(t).rc,
                overflow_rc: final(t).overflow_rc,
                ..*old(t)
            }),
            final(t).counts() == old(t).counts().inc(o.granule()),
            final(self).overflowed == overflowed_after_inc(
                old(t).counts(),
                old(self).overflowed,
                o.granule(),
            ),
    {
        let prev: u8 = self.rc.inc_exclusive(t, o);
        if prev != MAX_REF_COUNT {
            return prev as u64;
        }
        let cur: u32 = self.excess(t, o);
        t.overflow_rc.store(granule(o.addr), cur.wrapping_add(1));
        if cur == 0 {
            self.overflowed = self.overflowed.wrapping_add(1);
        }
        MAX_RC + cur as u64
    }

    /// [`Self::dec`] for a thread that is alone with the tables.
    pub fn dec_exclusive(&mut self, t: &mut RcTables, o: ObjectReference) -> (r: u64)
        requires
            old(t).rc@[o.granule()] != 0,
        ensures
            r == old(t).counts().count(o.granule()),
            *final(t) == (RcTables {
                rc: final(t).rc,
                overflow_rc: final(t).overflow_rc,
                ..*old(t)
            }),
            final(t).counts() == old(t).counts().dec(o.granule()),
            final(self).overflowed == overflowed_after_dec(
                old(t).counts(),
                old(self).overflowed,
                o.granule(),
            ),
    {
        let prev: u8 = self.rc.dec_exclusive(t, o);
        if prev != MAX_REF_COUNT {
            return prev as u64;
        }
        let cur: u32 = self.excess(t, o);
        if cur > 0 {
            t.overflow_rc.store(granule(o.addr), cur - 1);
            if cur == 1 {
                self.overflowed = self.overflowed.wrapping_sub(1);
            }
            MAX_RC + cur as u64
        } else {
            // The count was exactly the limit: the table itself steps down.
            self.rc.dec_unconditionally_exclusive(t, o) as u64
        }
    }

    /// The count of `o`.
    pub fn get(&self, t: &RcTables, o: ObjectReference) -> (r: u64)
        ensures
            r == t.counts().count(o.granule()),
    {
        let table_rc: u64 = self.rc.count(t, o) as u64;
        if table_rc != MAX_RC {
            return table_rc;
        }
        MAX_RC + self.excess(t, o) as u64
    }

    /// [`Self::inc`], counted by the path that it takes.
    pub fn inc_counted(
        &mut self,
        t: &mut RcTables,
        o: ObjectReference,
        paths: &mut RcPathStats,
    ) -> (r: u64)
        ensures
            r == old(t).counts().count(o.granule()),
            *final(t) == (RcTables {
                rc: final(t).rc,
                overflow_rc: final(t).overflow_rc,
                ..*old(t)
            }),
            final(t).counts() == old(t).counts().inc(o.granule()),
            final(self).overflowed == overflowed_after_inc(
                old(t).counts(),
                old(self).overflowed,
                o.granule(),
            ),
            *final(paths) == old(paths).after_inc(old(t).rc@[o.granule()] == MAX_REF_COUNT),
    {
        let prev: u64 = self.inc(t, o);
        if prev < MAX_RC {
            paths.inc_fast();
        } else {
            paths.inc_slow();
        }
        prev
    }

    /// [`Self::dec`], counted by the path that it takes.
    pub fn dec_counted(
        &mut self,
        t: &mut RcTables,
        o: ObjectReference,
        paths: &mut RcPathStats,
    ) -> (r: u64)
        requires
            old(t).rc@[o.granule()] != 0,
        ensures
            r == old(t).counts().count(o.granule()),
            *final(t) == (RcTables {
                rc: final(t).rc,
                overflow_rc: final(t).overflow_rc,
                ..*old(t)
            }),
            final(t).counts() == old(t).counts().dec(o.granule()),
            final(self).overflowed == overflowed_after_dec(
                old(t).counts(),
                old(self).overflowed,
                o.granule(),
            ),
            *final(paths) == old(paths).after_dec(old(t).rc@[o.granule()] == MAX_REF_COUNT),
    {
        let prev: u64 = self.dec(t, o);
        if prev < MAX_RC {
            paths.dec_fast();
        } else {
            paths.dec_slow();
        }
        prev
    }

    /// [`Self::inc_exclusive`], counted by the path that it takes.
    pub fn inc_exclusive_counted(
        &mut self,
        t: &mut RcTables,
        o: ObjectReference,
        paths: &mut RcPathStats,
    ) -> (r: u64)
        ensures
            r == old(t).counts().count(o.granule()),
            *final(t) == (RcTables {
                rc: final(t).rc,
                overflow_rc: final(t).overflow_rc,
                ..*old(t)
            }),
            final(t).counts() == old(t).counts().inc(o.granule()),
            final(self).overflowed == overflowed_after_inc(
                old(t).counts(),
                old(self).overflowed,
                o.granule(),
            ),
            *final(paths) == old(paths).after_inc(old(t).rc@[o.granule()] == MAX_REF_COUNT),
    {
        let prev: u64 = self.inc_exclusive(t, o);
        if prev < MAX_RC {
            paths.inc_fast();
        } else {
            paths.inc_slow();
        }
        prev
    }

    /// [`Self::dec_exclusive`], counted by the path that it takes.
    pub fn dec_exclusive_counted(
        &mut self,
        t: &mut RcTables,
        o: ObjectReference,
        paths: &mut RcPathStats,
    ) -> (r: u64)
        requires
            old(t).rc@[o.granule()] != 0,
        ensures
            r == old(t).counts().count(o.granule()),
            *final(t) == (RcTables {
                rc: final(t).rc,
                overflow_rc: final(t).overflow_rc,
                ..*old(t)
            }),
            final(t).counts() == old(t).counts().dec(o.granule()),
            final(self).overflowed == overflowed_after_dec(
                old(t).counts(),
                old(self).overflowed,
                o.granule(),
            ),
            *final(paths) == old(paths).after_dec(old(t).rc@[o.granule()] == MAX_REF_COUNT),
    {
        let prev: u64 = self.dec_exclusive(t, o);
        if prev < MAX_RC {
            paths.dec_fast();
        } else {
            paths.dec_slow();
        }
        prev
    }

    /// [`Self::get`], counted by the path that it takes.
    pub fn get_counted(&self, t: &RcTables, o: ObjectReference, paths: &mut RcPathStats) -> (r: u64)
        ensures
            r == t.counts().count(o.granule()),
            *final(paths) == old(paths).after_get(t.rc@[o.granule()] == MAX_REF_COUNT),
    {
        let count: u64 = self.get(t, o);
        if count < MAX_RC {
            paths.get_fast();
        } else {
            paths.get_slow();
        }
        count
    }

    /// Whether `o` has a reference.
    pub fn is_alive(&self, t: &RcTables, o: ObjectReference) -> (r: bool)
        ensures
            r == (t.rc@[o.granule()] > RC_DEATH_TRANSIENT),
    {
        self.rc.count(t, o) > RC_DEATH_TRANSIENT
    }

    /// How many objects have an excess.
    pub fn num_entries(&self) -> (r: usize)
        ensures
            r == self.overflowed,
    {
        self.overflowed
    }
}

/// An increment adds one to the count of its granule and to no other. Only an
/// excess at the end of its range has no successor.
pub proof fn inc_adds_one(c: Counts, g: usize)
    requires
        c.wf(),
        c.count(g) < 255 + u32::MAX,
    ensures
        c.inc(g).wf(),
        c.inc(g).count(g) == c.count(g) + 1,
        forall|h: usize| h != g ==> #[trigger] c.inc(g).count(h) == c.count(h),
{
    assert forall|h: usize| c.inc(g).excess[h] != 0 implies c.inc(g).rc[h] == 255 by {
        assert(c.excess[h] != 0 ==> c.rc[h] == 255);
    }
    assert(c.excess[g] != 0 ==> c.rc[g] == 255);
}

/// A decrement takes one from the count of its granule and from no other. A
/// count of 0 stays.
pub proof fn dec_takes_one(c: Counts, g: usize)
    requires
        c.wf(),
    ensures
        c.dec(g).wf(),
        c.count(g) > 0 ==> c.dec(g).count(g) == c.count(g) - 1,
        c.count(g) == 0 ==> c.dec(g) == c,
        forall|h: usize| h != g ==> #[trigger] c.dec(g).count(h) == c.count(h),
{
    assert forall|h: usize| c.dec(g).excess[h] != 0 implies c.dec(g).rc[h] == 255 by {
        assert(c.excess[h] != 0 ==> c.rc[h] == 255);
    }
}

/// A decrement undoes an increment.
pub proof fn dec_undoes_inc(c: Counts, g: usize)
    requires
        c.wf(),
        c.rc.dom().contains(g),
        c.excess.dom().contains(g),
        c.count(g) < 255 + u32::MAX,
    ensures
        c.inc(g).dec(g) == c,
{
    assert(c.excess[g] != 0 ==> c.rc[g] == 255);
    assert(c.inc(g).dec(g) =~= c);
}

/// An increment undoes a decrement.
pub proof fn inc_undoes_dec(c: Counts, g: usize)
    requires
        c.wf(),
        c.rc.dom().contains(g),
        c.excess.dom().contains(g),
        c.count(g) > 0,
    ensures
        c.dec(g).inc(g) == c,
{
    assert(c.excess[g] != 0 ==> c.rc[g] == 255);
    assert(c.dec(g).inc(g) =~= c);
}

/// A granule whose count fits in the table has no excess left behind: an
/// address that is used again starts without one.
pub proof fn below_limit_has_no_excess(c: Counts, g: usize)
    requires
        c.wf(),
        c.count(g) < 255,
    ensures
        c.excess[g] == 0,
{
    assert(c.excess[g] != 0 ==> c.rc[g] == 255);
}

/// Counts that are equal everywhere are held in equal tables.
pub proof fn counts_determine_tables(c: Counts, d: Counts)
    requires
        c.wf(),
        d.wf(),
        c.rc.dom() == d.rc.dom(),
        c.excess.dom() == d.excess.dom(),
        forall|g: usize| #[trigger] c.count(g) == d.count(g),
    ensures
        c == d,
{
    assert forall|g: usize| c.rc[g] == d.rc[g] && c.excess[g] == d.excess[g] by {
        assert(c.count(g) == d.count(g));
        assert(c.excess[g] != 0 ==> c.rc[g] == 255);
        assert(d.excess[g] != 0 ==> d.rc[g] == 255);
    }
    assert(c =~= d);
}

/// The number of overflowed objects stays right over an increment.
pub proof fn inc_keeps_number_of_overflowed(c: Counts, n: usize, g: usize)
    requires
        c.wf(),
        overflowed_granules(c).finite(),
        overflowed_granules(c).len() == n,
        n < usize::MAX,
        c.count(g) < 255 + u32::MAX,
    ensures
        overflowed_granules(c.inc(g)).finite(),
        overflowed_granules(c.inc(g)).len() == overflowed_after_inc(c, n, g),
{
    if c.rc[g] == 255 && c.excess[g] == 0 {
        assert(overflowed_granules(c.inc(g)) =~= overflowed_granules(c).insert(g));
    } else {
        assert(overflowed_granules(c.inc(g)) =~= overflowed_granules(c));
    }
}

/// The number of overflowed objects stays right over a decrement.
pub proof fn dec_keeps_number_of_overflowed(c: Counts, n: usize, g: usize)
    requires
        c.wf(),
        overflowed_granules(c).finite(),
        overflowed_granules(c).len() == n,
    ensures
        overflowed_granules(c.dec(g)).finite(),
        overflowed_granules(c.dec(g)).len() == overflowed_after_dec(c, n, g),
{
    if c.rc[g] == 255 && c.excess[g] == 1 {
        assert(overflowed_granules(c.dec(g)) =~= overflowed_granules(c).remove(g));
        assert(overflowed_granules(c).contains(g));
    } else {
        assert(overflowed_granules(c.dec(g)) =~= overflowed_granules(c));
    }
}

} // verus!
