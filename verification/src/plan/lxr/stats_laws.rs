//! What counters count and how they are printed.

use crate::plan::immix::Pause;
use crate::plan::lxr::cycle_stats;
use crate::plan::lxr::cycle_stats::CycleCollectorStats;
use crate::plan::lxr::dead_laws;
use crate::plan::lxr::overflow_stats;
use crate::plan::lxr::overflow_stats::{OverflowStats, ThreadStats};
use crate::plan::lxr::rc_path_stats;
use crate::plan::lxr::rc_path_stats::RcPathStats;
use crate::util::text;
use vstd::prelude::*;
use vstd::string::*;

verus! {

/// The pauses are numbered from one.
pub proof fn pauses_are_numbered(p: Pause)
    ensures
        p is Full ==> p.spec_code() == 1,
        p is FullDefrag ==> p.spec_code() == 2,
        p is RefCount ==> p.spec_code() == 3,
        p is InitialMark ==> p.spec_code() == 4,
        p is FinalMark ==> p.spec_code() == 5,
        p is FullRC ==> p.spec_code() == 6,
{
}

/// Each counter of a cycle collection stands under its name.
pub proof fn cycle_counters_stand_under_their_names(s: CycleCollectorStats)
    ensures
        cycle_stats::stats_header()
            == "raw_cycle_candidates,candidates_after_filter,objects_in_mark,objects_in_scan,objects_in_scan_black,objects_in_collect,satb_map_size,satb_reads\n"@,
        s.columns().len() == 8,
        s.columns()[0] == text::decimal(s.raw_cycle_candidates as nat),
        s.columns()[1] == text::decimal(s.candidates_after_filter as nat),
        s.columns()[2] == text::decimal(s.objects_in_mark as nat),
        s.columns()[3] == text::decimal(s.objects_in_scan as nat),
        s.columns()[4] == text::decimal(s.objects_in_scan_black as nat),
        s.columns()[5] == text::decimal(s.objects_in_collect as nat),
        s.columns()[6] == text::decimal(s.satb_map_size as nat),
        s.columns()[7] == text::decimal(s.satb_reads as nat),
{
}

/// A counter that counted once more. The largest number is followed by zero.
pub open spec fn next_count(n: u64) -> int {
    if n < u64::MAX {
        n + 1
    } else {
        0
    }
}

/// An operation that the side table served counts as fast, one that needed the
/// overflow table as slow, and no other counter changes.
pub proof fn paths_are_counted(s: RcPathStats)
    ensures
        s.after_inc(false) == (RcPathStats { inc_fast: s.after_inc(false).inc_fast, ..s }),
        s.after_inc(true) == (RcPathStats { inc_slow: s.after_inc(true).inc_slow, ..s }),
        s.after_dec(false) == (RcPathStats { dec_fast: s.after_dec(false).dec_fast, ..s }),
        s.after_dec(true) == (RcPathStats { dec_slow: s.after_dec(true).dec_slow, ..s }),
        s.after_get(false) == (RcPathStats { get_fast: s.after_get(false).get_fast, ..s }),
        s.after_get(true) == (RcPathStats { get_slow: s.after_get(true).get_slow, ..s }),
        s.after_inc(false).inc_fast == next_count(s.inc_fast),
        s.after_inc(true).inc_slow == next_count(s.inc_slow),
        s.after_dec(false).dec_fast == next_count(s.dec_fast),
        s.after_dec(true).dec_slow == next_count(s.dec_slow),
        s.after_get(false).get_fast == next_count(s.get_fast),
        s.after_get(true).get_slow == next_count(s.get_slow),
{
}

/// The two paths of an operation are reported with their sum.
pub proof fn paths_are_summed(fast: u64, slow: u64)
    ensures
        rc_path_stats::path_count(fast, slow).fast == fast,
        rc_path_stats::path_count(fast, slow).slow == slow,
        rc_path_stats::path_count(fast, slow).total == (fast + slow) % (u64::MAX + 1),
{
    if fast + slow > u64::MAX {
        vstd::arithmetic::div_mod::lemma_mod_add_multiples_vanish(
            fast + slow - (u64::MAX + 1),
            u64::MAX + 1,
        );
        vstd::arithmetic::div_mod::lemma_small_mod(
            (fast + slow - (u64::MAX + 1)) as nat,
            (u64::MAX + 1) as nat,
        );
    } else {
        vstd::arithmetic::div_mod::lemma_small_mod((fast + slow) as nat, (u64::MAX + 1) as nat);
    }
}

/// Each counter of a path stands under its name.
pub proof fn path_counters_stand_under_their_names(s: RcPathStats)
    ensures
        rc_path_stats::key_cells().len() == 6,
        s.columns().len() == 6,
        rc_path_stats::key_cells()[0] == "rc_path.inc.fast"@ && s.columns()[0] == s.inc_fast,
        rc_path_stats::key_cells()[1] == "rc_path.inc.slow"@ && s.columns()[1] == s.inc_slow,
        rc_path_stats::key_cells()[2] == "rc_path.dec.fast"@ && s.columns()[2] == s.dec_fast,
        rc_path_stats::key_cells()[3] == "rc_path.dec.slow"@ && s.columns()[3] == s.dec_slow,
        rc_path_stats::key_cells()[4] == "rc_path.get.fast"@ && s.columns()[4] == s.get_fast,
        rc_path_stats::key_cells()[5] == "rc_path.get.slow"@ && s.columns()[5] == s.get_slow,
{
}

/// Each counter of a thread, and the numbers of entries, stand under their names.
pub proof fn overflow_counters_stand_under_their_names(s: ThreadStats)
    ensures
        overflow_stats::key_cells().len() == 15,
        s.columns().len() == 13,
        overflow_stats::key_cells()[0] == "rc_overflow.inc.side"@,
        s.columns()[0] == s.inc_side,
        overflow_stats::key_cells()[1] == "rc_overflow.inc.overflow"@,
        s.columns()[1] == s.inc_overflow,
        overflow_stats::key_cells()[2] == "rc_overflow.inc.scanned"@,
        s.columns()[2] == s.inc_scanned,
        overflow_stats::key_cells()[3] == "rc_overflow.inc.inserts"@,
        s.columns()[3] == s.inc_inserts,
        overflow_stats::key_cells()[4] == "rc_overflow.dec.side"@,
        s.columns()[4] == s.dec_side,
        overflow_stats::key_cells()[5] == "rc_overflow.dec.overflow"@,
        s.columns()[5] == s.dec_overflow,
        overflow_stats::key_cells()[6] == "rc_overflow.dec.scanned"@,
        s.columns()[6] == s.dec_scanned,
        overflow_stats::key_cells()[7] == "rc_overflow.dec.miss"@,
        s.columns()[7] == s.dec_miss,
        overflow_stats::key_cells()[8] == "rc_overflow.dec.removes"@,
        s.columns()[8] == s.dec_removes,
        overflow_stats::key_cells()[9] == "rc_overflow.get.side"@,
        s.columns()[9] == s.get_side,
        overflow_stats::key_cells()[10] == "rc_overflow.get.overflow"@,
        s.columns()[10] == s.get_overflow,
        overflow_stats::key_cells()[11] == "rc_overflow.get.scanned"@,
        s.columns()[11] == s.get_scanned,
        overflow_stats::key_cells()[12] == "rc_overflow.get.miss"@,
        s.columns()[12] == s.get_miss,
        overflow_stats::key_cells()[13] == "rc_overflow.entries.max"@,
        overflow_stats::key_cells()[14] == "rc_overflow.entries.live"@,
{
}

/// Once the measured part has ended its sums are printed, with the largest number of
/// entries in it and the entries that are left: those that were made without those
/// that were removed. Before, all is zero but for the largest number of entries.
pub proof fn printed_values_are_those_measured(s: OverflowStats)
    ensures
        s.retired matches Some(r) ==> {
            let live = if r.0.inc_inserts >= r.0.dec_removes {
                (r.0.inc_inserts - r.0.dec_removes) as nat
            } else {
                0
            };
            let v = overflow_stats::value_cells(s);
            &&& v.len() == 15
            &&& forall|i: int|
                #![trigger v[i]]
                0 <= i < 13 ==> v[i] == text::decimal(r.0.columns()[i] as nat)
            &&& v[13] == text::decimal(r.1 as nat)
            &&& v[14] == text::decimal(live)
        },
        s.retired is None ==> {
            let v = overflow_stats::value_cells(s);
            &&& v.len() == 15
            &&& forall|i: int| #![trigger v[i]] 0 <= i < 13 ==> v[i] == text::decimal(0)
            &&& v[13] == text::decimal(s.entries_max as nat)
            &&& v[14] == text::decimal(0)
        },
{
}

/// Every counter is zero.
pub proof fn zero_counters_are_zero()
    ensures
        forall|i: int|
            #![trigger ThreadStats::zero().columns()[i]]
            0 <= i < 13 ==> ThreadStats::zero().columns()[i] == 0,
{
}

/// The counters of two threads are added one by one. They wrap.
pub proof fn counters_are_added(s: ThreadStats, t: ThreadStats)
    ensures
        dead_laws::went_up(s.inc_side, s.plus(t).inc_side, t.inc_side as nat),
        dead_laws::went_up(s.inc_overflow, s.plus(t).inc_overflow, t.inc_overflow as nat),
        dead_laws::went_up(s.inc_scanned, s.plus(t).inc_scanned, t.inc_scanned as nat),
        dead_laws::went_up(s.inc_inserts, s.plus(t).inc_inserts, t.inc_inserts as nat),
        dead_laws::went_up(s.dec_side, s.plus(t).dec_side, t.dec_side as nat),
        dead_laws::went_up(s.dec_overflow, s.plus(t).dec_overflow, t.dec_overflow as nat),
        dead_laws::went_up(s.dec_scanned, s.plus(t).dec_scanned, t.dec_scanned as nat),
        dead_laws::went_up(s.dec_miss, s.plus(t).dec_miss, t.dec_miss as nat),
        dead_laws::went_up(s.dec_removes, s.plus(t).dec_removes, t.dec_removes as nat),
        dead_laws::went_up(s.get_side, s.plus(t).get_side, t.get_side as nat),
        dead_laws::went_up(s.get_overflow, s.plus(t).get_overflow, t.get_overflow as nat),
        dead_laws::went_up(s.get_scanned, s.plus(t).get_scanned, t.get_scanned as nat),
        dead_laws::went_up(s.get_miss, s.plus(t).get_miss, t.get_miss as nat),
{
    dead_laws::wrapping_goes_up(s.inc_side, t.inc_side);
    dead_laws::wrapping_goes_up(s.inc_overflow, t.inc_overflow);
    dead_laws::wrapping_goes_up(s.inc_scanned, t.inc_scanned);
    dead_laws::wrapping_goes_up(s.inc_inserts, t.inc_inserts);
    dead_laws::wrapping_goes_up(s.dec_side, t.dec_side);
    dead_laws::wrapping_goes_up(s.dec_overflow, t.dec_overflow);
    dead_laws::wrapping_goes_up(s.dec_scanned, t.dec_scanned);
    dead_laws::wrapping_goes_up(s.dec_miss, t.dec_miss);
    dead_laws::wrapping_goes_up(s.dec_removes, t.dec_removes);
    dead_laws::wrapping_goes_up(s.get_side, t.get_side);
    dead_laws::wrapping_goes_up(s.get_overflow, t.get_overflow);
    dead_laws::wrapping_goes_up(s.get_scanned, t.get_scanned);
    dead_laws::wrapping_goes_up(s.get_miss, t.get_miss);
}

/// The sums over the threads are those over all but the last, and the last.
pub proof fn sums_are_over_all_threads(threads: Seq<ThreadStats>, t: ThreadStats)
    ensures
        overflow_stats::total(threads.push(t)) == overflow_stats::total(threads).plus(t),
        overflow_stats::total(Seq::empty()) == ThreadStats::zero(),
{
    assert(threads.push(t).drop_last() =~= threads);
}

/// Counting changes the counters of the thread that counts, if anything is counted,
/// and nothing else.
pub proof fn counting_changes_one_thread(
    old: OverflowStats,
    new: OverflowStats,
    thread: usize,
    stats: ThreadStats,
)
    requires
        overflow_stats::bumped(old, new, thread, stats),
        thread < old.threads@.len(),
    ensures
        new.enabled == old.enabled,
        new.entries_max == old.entries_max,
        new.retired == old.retired,
        new.threads@.len() == old.threads@.len(),
        forall|i: int|
            #![trigger new.threads@[i]]
            0 <= i < old.threads@.len() ==> new.threads@[i] == (if i == thread && old.enabled {
                stats
            } else {
                old.threads@[i]
            }),
{
}

/// An entry that was made counts for the thread that made it, and the largest number
/// of entries is the largest that there was.
pub proof fn new_entry_is_counted(
    old: OverflowStats,
    new: OverflowStats,
    thread: usize,
    entries_len: usize,
)
    requires
        overflow_stats::inserted(old, new, thread, entries_len),
        thread < old.threads@.len(),
    ensures
        new.enabled == old.enabled,
        new.retired == old.retired,
        new.threads@.len() == old.threads@.len(),
        forall|i: int|
            #![trigger new.threads@[i]]
            0 <= i < old.threads@.len() && (i != thread || !old.enabled) ==> new.threads@[i]
                == old.threads@[i],
        old.enabled ==> {
            let (a, b) = (old.threads@[thread as int], new.threads@[thread as int]);
            &&& b == (ThreadStats { inc_inserts: b.inc_inserts, ..a })
            &&& dead_laws::went_up(a.inc_inserts, b.inc_inserts, 1)
        },
        !old.enabled ==> new.entries_max == old.entries_max,
        old.enabled ==> new.entries_max >= entries_len && new.entries_max >= old.entries_max && (
        new.entries_max == entries_len || new.entries_max == old.entries_max),
{
    dead_laws::wrapping_goes_up(old.threads@[thread as int].inc_inserts, 1);
}

} // verus!
