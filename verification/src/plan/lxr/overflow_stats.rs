//! Counters of how reference counts that overflow are used.
//!
//! Every thread counts for itself, so that counting does not slow other threads
//! down. The counters of all threads are added up when the measured part of a
//! program ends.

use crate::util::text;
use crate::util::text::{cells_string, decimal_strings};
use vstd::prelude::*;

verus! {

/// The counters of one thread, or the sums over all threads. They wrap.
#[derive(Clone, Copy, Debug, PartialEq, Eq, Structural)]
pub struct ThreadStats {
    /// Increments that the side table served.
    pub inc_side: usize,
    /// Increments that went to the overflow table.
    pub inc_overflow: usize,
    /// Entries that increments looked at.
    pub inc_scanned: usize,
    /// Entries that increments made.
    pub inc_inserts: usize,
    /// Decrements that the side table served.
    pub dec_side: usize,
    /// Decrements that went to the overflow table.
    pub dec_overflow: usize,
    /// Entries that decrements looked at.
    pub dec_scanned: usize,
    /// Decrements that found no entry.
    pub dec_miss: usize,
    /// Entries that decrements removed.
    pub dec_removes: usize,
    /// Reads that the side table served.
    pub get_side: usize,
    /// Reads that went to the overflow table.
    pub get_overflow: usize,
    /// Entries that reads looked at.
    pub get_scanned: usize,
    /// Reads that found no entry.
    pub get_miss: usize,
}

/// The counters of all threads.
pub struct OverflowStats {
    /// Whether anything is counted at all.
    pub enabled: bool,
    /// The counters of each thread.
    pub threads: Vec<ThreadStats>,
    /// The largest number of entries that the overflow table had.
    pub entries_max: usize,
    /// The sums at the end of the measured part, and the largest number of
    /// entries in it, once it has ended.
    pub retired: Option<(ThreadStats, usize)>,
}

impl ThreadStats {
    /// Counters that are all zero.
    pub open spec fn zero() -> ThreadStats {
        ThreadStats {
            inc_side: 0,
            inc_overflow: 0,
            inc_scanned: 0,
            inc_inserts: 0,
            dec_side: 0,
            dec_overflow: 0,
            dec_scanned: 0,
            dec_miss: 0,
            dec_removes: 0,
            get_side: 0,
            get_overflow: 0,
            get_scanned: 0,
            get_miss: 0,
        }
    }

    /// The sums of two threads' counters.
    pub open spec fn plus(self, t: ThreadStats) -> ThreadStats {
        ThreadStats {
            inc_side: self.inc_side.wrapping_add(t.inc_side),
            inc_overflow: self.inc_overflow.wrapping_add(t.inc_overflow),
            inc_scanned: self.inc_scanned.wrapping_add(t.inc_scanned),
            inc_inserts: self.inc_inserts.wrapping_add(t.inc_inserts),
            dec_side: self.dec_side.wrapping_add(t.dec_side),
            dec_overflow: self.dec_overflow.wrapping_add(t.dec_overflow),
            dec_scanned: self.dec_scanned.wrapping_add(t.dec_scanned),
            dec_miss: self.dec_miss.wrapping_add(t.dec_miss),
            dec_removes: self.dec_removes.wrapping_add(t.dec_removes),
            get_side: self.get_side.wrapping_add(t.get_side),
            get_overflow: self.get_overflow.wrapping_add(t.get_overflow),
            get_scanned: self.get_scanned.wrapping_add(t.get_scanned),
            get_miss: self.get_miss.wrapping_add(t.get_miss),
        }
    }

    /// The counters in the order of their columns.
    pub open spec fn columns(self) -> Seq<u64> {
        seq![
            self.inc_side as u64,
            self.inc_overflow as u64,
            self.inc_scanned as u64,
            self.inc_inserts as u64,
            self.dec_side as u64,
            self.dec_overflow as u64,
            self.dec_scanned as u64,
            self.dec_miss as u64,
            self.dec_removes as u64,
            self.get_side as u64,
            self.get_overflow as u64,
            self.get_scanned as u64,
            self.get_miss as u64,
        ]
    }

    /// Counters that are all zero.
    pub fn new() -> (r: ThreadStats)
        ensures
            r == ThreadStats::zero(),
    {
        ThreadStats {
            inc_side: 0,
            inc_overflow: 0,
            inc_scanned: 0,
            inc_inserts: 0,
            dec_side: 0,
            dec_overflow: 0,
            dec_scanned: 0,
            dec_miss: 0,
            dec_removes: 0,
            get_side: 0,
            get_overflow: 0,
            get_scanned: 0,
            get_miss: 0,
        }
    }

    /// The sums of two threads' counters.
    fn sum(self, t: ThreadStats) -> (r: ThreadStats)
        ensures
            r == self.plus(t),
    {
        ThreadStats {
            inc_side: self.inc_side.wrapping_add(t.inc_side),
            inc_overflow: self.inc_overflow.wrapping_add(t.inc_overflow),
            inc_scanned: self.inc_scanned.wrapping_add(t.inc_scanned),
            inc_inserts: self.inc_inserts.wrapping_add(t.inc_inserts),
            dec_side: self.dec_side.wrapping_add(t.dec_side),
            dec_overflow: self.dec_overflow.wrapping_add(t.dec_overflow),
            dec_scanned: self.dec_scanned.wrapping_add(t.dec_scanned),
            dec_miss: self.dec_miss.wrapping_add(t.dec_miss),
            dec_removes: self.dec_removes.wrapping_add(t.dec_removes),
            get_side: self.get_side.wrapping_add(t.get_side),
            get_overflow: self.get_overflow.wrapping_add(t.get_overflow),
            get_scanned: self.get_scanned.wrapping_add(t.get_scanned),
            get_miss: self.get_miss.wrapping_add(t.get_miss),
        }
    }
}

/// The sums over all threads.
pub open spec fn total(threads: Seq<ThreadStats>) -> ThreadStats
    decreases threads.len(),
{
    if threads.len() == 0 {
        ThreadStats::zero()
    } else {
        total(threads.drop_last()).plus(threads.last())
    }
}

/// The names of the columns.
pub open spec fn key_cells() -> Seq<Seq<char>> {
    seq![
        "rc_overflow.inc.side"@,
        "rc_overflow.inc.overflow"@,
        "rc_overflow.inc.scanned"@,
        "rc_overflow.inc.inserts"@,
        "rc_overflow.dec.side"@,
        "rc_overflow.dec.overflow"@,
        "rc_overflow.dec.scanned"@,
        "rc_overflow.dec.miss"@,
        "rc_overflow.dec.removes"@,
        "rc_overflow.get.side"@,
        "rc_overflow.get.overflow"@,
        "rc_overflow.get.scanned"@,
        "rc_overflow.get.miss"@,
        "rc_overflow.entries.max"@,
        "rc_overflow.entries.live"@,
    ]
}

/// The values of the columns: those of the measured part once it has ended, and
/// before all zero but for the largest number of entries so far.
pub open spec fn value_cells(s: OverflowStats) -> Seq<Seq<char>> {
    let (t, entries_max) = if s.retired is Some {
        s.retired->0
    } else {
        (ThreadStats::zero(), s.entries_max)
    };
    let live = if t.inc_inserts >= t.dec_removes {
        t.inc_inserts - t.dec_removes
    } else {
        0
    };
    text::decimals(t.columns().push(entries_max as u64).push(live as u64))
}

/// Every name of a column has a value: names and values are matched by their
/// order.
pub proof fn columns_are_aligned(s: OverflowStats)
    ensures
        key_cells().len() == value_cells(s).len(),
{
}

/// Whether `new` is `old` with other counters for the thread, and the same
/// otherwise.
pub open spec fn bumped(
    old: OverflowStats,
    new: OverflowStats,
    thread: usize,
    stats: ThreadStats,
) -> bool {
    &&& new == (OverflowStats { threads: new.threads, ..old })
    &&& new.threads@ == (if old.enabled {
        old.threads@.update(thread as int, stats)
    } else {
        old.threads@
    })
}

/// Whether `new` is `old` after the thread has counted an entry that an increment
/// made in a table that then had `entries_len`.
pub open spec fn inserted(
    old: OverflowStats,
    new: OverflowStats,
    thread: usize,
    entries_len: usize,
) -> bool {
    &&& bumped(
        old,
        OverflowStats { entries_max: old.entries_max, ..new },
        thread,
        ThreadStats {
            inc_inserts: old.threads@[thread as int].inc_inserts.wrapping_add(1),
            ..old.threads@[thread as int]
        },
    )
    &&& new.entries_max == (if old.enabled && entries_len > old.entries_max {
        entries_len
    } else {
        old.entries_max
    })
}

impl OverflowStats {
    /// No counters.
    pub fn new(enabled: bool) -> (r: OverflowStats)
        ensures
            r.enabled == enabled,
            r.threads@ == Seq::<ThreadStats>::empty(),
            r.entries_max == 0,
            r.retired is None,
    {
        OverflowStats { enabled, threads: Vec::new(), entries_max: 0, retired: None }
    }

    /// Counters for one more thread. Returns its number.
    pub fn register_thread(&mut self) -> (r: usize)
        ensures
            r == old(self).threads@.len(),
            final(self).threads@ == old(self).threads@.push(ThreadStats::zero()),
            *final(self) == (OverflowStats { threads: final(self).threads, ..*old(self) }),
    {
        let n: usize = self.threads.len();
        self.threads.push(ThreadStats::new());
        n
    }

    /// Replaces the counters of the thread, if anything is counted.
    fn bump(&mut self, thread: usize, stats: ThreadStats)
        requires
            thread < old(self).threads@.len(),
        ensures
            bumped(*old(self), *final(self), thread, stats),
    {
        if self.enabled {
            self.threads.set(thread, stats);
        }
    }

    /// The sums over all threads.
    fn aggregate(&self) -> (r: ThreadStats)
        ensures
            r == total(self.threads@),
    {
        let mut t = ThreadStats::new();
        let mut i: usize = 0;
        assert(self.threads@.take(0) =~= Seq::<ThreadStats>::empty());
        while i < self.threads.len()
            invariant
                i <= self.threads@.len(),
                t == total(self.threads@.take(i as int)),
            decreases self.threads@.len() - i,
        {
            assert(self.threads@.take(i + 1).drop_last() =~= self.threads@.take(i as int));
            t = t.sum(self.threads[i]);
            i = i + 1;
        }
        assert(self.threads@.take(i as int) =~= self.threads@);
        t
    }

    /// Sets the counters of all threads to zero.
    fn clear_all(&mut self)
        ensures
            final(self).threads@ == Seq::new(
                old(self).threads@.len(),
                |i: int| ThreadStats::zero(),
            ),
            *final(self) == (OverflowStats { threads: final(self).threads, ..*old(self) }),
    {
        let mut i: usize = 0;
        while i < self.threads.len()
            invariant
                i <= self.threads@.len(),
                self.threads@.len() == old(self).threads@.len(),
                *self == (OverflowStats { threads: self.threads, ..*old(self) }),
                forall|k: int| 0 <= k < i ==> #[trigger] self.threads@[k] == ThreadStats::zero(),
            decreases self.threads@.len() - i,
        {
            self.threads.set(i, ThreadStats::new());
            i = i + 1;
        }
        assert(self.threads@ =~= Seq::new(old(self).threads@.len(), |i: int| ThreadStats::zero()));
    }
}

/// Counts an increment that the side table served.
pub fn inc_side(stats: &mut OverflowStats, thread: usize)
    requires
        thread < old(stats).threads@.len(),
    ensures
        bumped(
            *old(stats),
            *final(stats),
            thread,
            (ThreadStats {
                inc_side: old(stats).threads@[thread as int].inc_side.wrapping_add(1),
                ..old(stats).threads@[thread as int]
            }),
        ),
{
    let mut s = stats.threads[thread];
    s.inc_side = s.inc_side.wrapping_add(1);
    stats.bump(thread, s);
}

/// Counts an increment that looked at `scanned` entries of the overflow table.
pub fn inc_overflow(stats: &mut OverflowStats, thread: usize, scanned: usize)
    requires
        thread < old(stats).threads@.len(),
    ensures
        bumped(
            *old(stats),
            *final(stats),
            thread,
            (ThreadStats {
                inc_overflow: old(stats).threads@[thread as int].inc_overflow.wrapping_add(1),
                inc_scanned: old(stats).threads@[thread as int].inc_scanned.wrapping_add(scanned),
                ..old(stats).threads@[thread as int]
            }),
        ),
{
    let mut s = stats.threads[thread];
    s.inc_overflow = s.inc_overflow.wrapping_add(1);
    s.inc_scanned = s.inc_scanned.wrapping_add(scanned);
    stats.bump(thread, s);
}

/// Counts an entry that an increment made. The table then had `entries_len`.
pub fn inc_insert(stats: &mut OverflowStats, thread: usize, entries_len: usize)
    requires
        thread < old(stats).threads@.len(),
    ensures
        inserted(*old(stats), *final(stats), thread, entries_len),
{
    let mut s = stats.threads[thread];
    s.inc_inserts = s.inc_inserts.wrapping_add(1);
    stats.bump(thread, s);
    if stats.enabled && entries_len > stats.entries_max {
        stats.entries_max = entries_len;
    }
}

/// Counts a decrement that the side table served.
pub fn dec_side(stats: &mut OverflowStats, thread: usize)
    requires
        thread < old(stats).threads@.len(),
    ensures
        bumped(
            *old(stats),
            *final(stats),
            thread,
            (ThreadStats {
                dec_side: old(stats).threads@[thread as int].dec_side.wrapping_add(1),
                ..old(stats).threads@[thread as int]
            }),
        ),
{
    let mut s = stats.threads[thread];
    s.dec_side = s.dec_side.wrapping_add(1);
    stats.bump(thread, s);
}

/// Counts a decrement that looked at `scanned` entries of the overflow table.
pub fn dec_overflow(stats: &mut OverflowStats, thread: usize, scanned: usize)
    requires
        thread < old(stats).threads@.len(),
    ensures
        bumped(
            *old(stats),
            *final(stats),
            thread,
            (ThreadStats {
                dec_overflow: old(stats).threads@[thread as int].dec_overflow.wrapping_add(1),
                dec_scanned: old(stats).threads@[thread as int].dec_scanned.wrapping_add(scanned),
                ..old(stats).threads@[thread as int]
            }),
        ),
{
    let mut s = stats.threads[thread];
    s.dec_overflow = s.dec_overflow.wrapping_add(1);
    s.dec_scanned = s.dec_scanned.wrapping_add(scanned);
    stats.bump(thread, s);
}

/// Counts an entry that a decrement removed.
pub fn dec_remove(stats: &mut OverflowStats, thread: usize)
    requires
        thread < old(stats).threads@.len(),
    ensures
        bumped(
            *old(stats),
            *final(stats),
            thread,
            (ThreadStats {
                dec_removes: old(stats).threads@[thread as int].dec_removes.wrapping_add(1),
                ..old(stats).threads@[thread as int]
            }),
        ),
{
    let mut s = stats.threads[thread];
    s.dec_removes = s.dec_removes.wrapping_add(1);
    stats.bump(thread, s);
}

/// Counts a decrement that found no entry.
pub fn dec_miss(stats: &mut OverflowStats, thread: usize)
    requires
        thread < old(stats).threads@.len(),
    ensures
        bumped(
            *old(stats),
            *final(stats),
            thread,
            (ThreadStats {
                dec_miss: old(stats).threads@[thread as int].dec_miss.wrapping_add(1),
                ..old(stats).threads@[thread as int]
            }),
        ),
{
    let mut s = stats.threads[thread];
    s.dec_miss = s.dec_miss.wrapping_add(1);
    stats.bump(thread, s);
}

/// Counts a read that the side table served.
pub fn get_side(stats: &mut OverflowStats, thread: usize)
    requires
        thread < old(stats).threads@.len(),
    ensures
        bumped(
            *old(stats),
            *final(stats),
            thread,
            (ThreadStats {
                get_side: old(stats).threads@[thread as int].get_side.wrapping_add(1),
                ..old(stats).threads@[thread as int]
            }),
        ),
{
    let mut s = stats.threads[thread];
    s.get_side = s.get_side.wrapping_add(1);
    stats.bump(thread, s);
}

/// Counts a read that looked at `scanned` entries of the overflow table.
pub fn get_overflow(stats: &mut OverflowStats, thread: usize, scanned: usize)
    requires
        thread < old(stats).threads@.len(),
    ensures
        bumped(
            *old(stats),
            *final(stats),
            thread,
            (ThreadStats {
                get_overflow: old(stats).threads@[thread as int].get_overflow.wrapping_add(1),
                get_scanned: old(stats).threads@[thread as int].get_scanned.wrapping_add(scanned),
                ..old(stats).threads@[thread as int]
            }),
        ),
{
    let mut s = stats.threads[thread];
    s.get_overflow = s.get_overflow.wrapping_add(1);
    s.get_scanned = s.get_scanned.wrapping_add(scanned);
    stats.bump(thread, s);
}

/// Counts a read that found no entry.
pub fn get_miss(stats: &mut OverflowStats, thread: usize)
    requires
        thread < old(stats).threads@.len(),
    ensures
        bumped(
            *old(stats),
            *final(stats),
            thread,
            (ThreadStats {
                get_miss: old(stats).threads@[thread as int].get_miss.wrapping_add(1),
                ..old(stats).threads@[thread as int]
            }),
        ),
{
    let mut s = stats.threads[thread];
    s.get_miss = s.get_miss.wrapping_add(1);
    stats.bump(thread, s);
}

/// Begins the measured part: every counter is zero.
pub fn reset(stats: &mut OverflowStats)
    ensures
        final(stats).enabled == old(stats).enabled,
        old(stats).enabled ==> {
            &&& final(stats).threads@ == Seq::new(
                old(stats).threads@.len(),
                |i: int| ThreadStats::zero(),
            )
            &&& final(stats).entries_max == 0
            &&& final(stats).retired is None
        },
        !old(stats).enabled ==> *final(stats) == *old(stats),
{
    if stats.enabled {
        stats.clear_all();
        stats.entries_max = 0;
        stats.retired = None;
    }
}

/// Ends the measured part: the sums and the largest number of entries are kept.
pub fn stop(stats: &mut OverflowStats)
    ensures
        *final(stats) == (OverflowStats {
            retired: if old(stats).enabled {
                Some((total(old(stats).threads@), old(stats).entries_max))
            } else {
                old(stats).retired
            },
            ..*old(stats)
        }),
{
    if stats.enabled {
        stats.retired = Some((stats.aggregate(), stats.entries_max));
    }
}

/// The names of the columns, with a tab behind each.
pub fn print_keys(stats: &OverflowStats) -> (r: String)
    ensures
        r@ == (if stats.enabled {
            text::cells_with(key_cells(), "\t"@)
        } else {
            Seq::<char>::empty()
        }),
{
    if !stats.enabled {
        let r = String::new();
        assert(r@ =~= Seq::<char>::empty());
        return r;
    }
    let cells: Vec<String> = vec![
        "rc_overflow.inc.side".to_owned(),
        "rc_overflow.inc.overflow".to_owned(),
        "rc_overflow.inc.scanned".to_owned(),
        "rc_overflow.inc.inserts".to_owned(),
        "rc_overflow.dec.side".to_owned(),
        "rc_overflow.dec.overflow".to_owned(),
        "rc_overflow.dec.scanned".to_owned(),
        "rc_overflow.dec.miss".to_owned(),
        "rc_overflow.dec.removes".to_owned(),
        "rc_overflow.get.side".to_owned(),
        "rc_overflow.get.overflow".to_owned(),
        "rc_overflow.get.scanned".to_owned(),
        "rc_overflow.get.miss".to_owned(),
        "rc_overflow.entries.max".to_owned(),
        "rc_overflow.entries.live".to_owned(),
    ];
    assert(text::string_texts(cells@) =~= key_cells());
    cells_string(&cells, "\t")
}

/// The values of the columns, with a tab behind each.
pub fn print_values(stats: &OverflowStats) -> (r: String)
    ensures
        r@ == (if stats.enabled {
            text::cells_with(value_cells(*stats), "\t"@)
        } else {
            Seq::<char>::empty()
        }),
{
    if !stats.enabled {
        let r = String::new();
        assert(r@ =~= Seq::<char>::empty());
        return r;
    }
    let (t, entries_max) = match stats.retired {
        Some(kept) => kept,
        None => (ThreadStats::new(), stats.entries_max),
    };
    let live: usize = if t.inc_inserts >= t.dec_removes {
        t.inc_inserts - t.dec_removes
    } else {
        0
    };
    let numbers: Vec<u64> = vec![
        t.inc_side as u64,
        t.inc_overflow as u64,
        t.inc_scanned as u64,
        t.inc_inserts as u64,
        t.dec_side as u64,
        t.dec_overflow as u64,
        t.dec_scanned as u64,
        t.dec_miss as u64,
        t.dec_removes as u64,
        t.get_side as u64,
        t.get_overflow as u64,
        t.get_scanned as u64,
        t.get_miss as u64,
        entries_max as u64,
        live as u64,
    ];
    assert(numbers@ =~= t.columns().push(entries_max as u64).push(live as u64));
    let cells = decimal_strings(&numbers);
    cells_string(&cells, "\t")
}

/// Whether `new` is `old` after a thread has counted something.
pub open spec fn counted(old: OverflowStats, new: OverflowStats) -> bool {
    ||| exists|thread: usize, stats: ThreadStats| bumped(old, new, thread, stats)
    ||| exists|thread: usize, entries_len: usize| inserted(old, new, thread, entries_len)
}

/// The printed values describe the measured part: whatever threads count after
/// its end, however often, does not show.
pub proof fn later_counts_do_not_show(states: Seq<OverflowStats>)
    requires
        states.len() > 0,
        states[0].retired is Some,
        forall|i: int|
            0 <= i < states.len() - 1 ==> counted(#[trigger] states[i], states[i + 1]),
    ensures
        states.last().retired == states[0].retired,
        value_cells(states.last()) == value_cells(states[0]),
    decreases states.len(),
{
    if states.len() > 1 {
        let before = states.drop_last();
        assert forall|i: int| 0 <= i < before.len() - 1 implies counted(
            #[trigger] before[i],
            before[i + 1],
        ) by {
            assert(counted(states[i], states[i + 1]));
        }
        later_counts_do_not_show(before);
        let i = states.len() - 2;
        assert(counted(states[i], states[i + 1]));
    }
}

/// Where every thread has counted nothing, the sums are zero.
pub proof fn nothing_counted_sums_to_zero(n: nat)
    ensures
        total(Seq::new(n, |i: int| ThreadStats::zero())) == ThreadStats::zero(),
    decreases n,
{
    let s = Seq::new(n, |i: int| ThreadStats::zero());
    if n > 0 {
        nothing_counted_sums_to_zero((n - 1) as nat);
        assert(s.drop_last() =~= Seq::new((n - 1) as nat, |i: int| ThreadStats::zero()));
    }
}

} // verus!
