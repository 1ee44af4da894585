use lxr_core::plan::lxr::overflow_stats;
use lxr_core::plan::lxr::overflow_stats::OverflowStats;
use lxr_core::plan::lxr::rc_path_stats::RcPathStats;

#[test]
fn sums_over_threads() {
    let mut stats = OverflowStats::new(true);
    let a = stats.register_thread();
    let b = stats.register_thread();
    overflow_stats::inc_side(&mut stats, a);
    overflow_stats::inc_side(&mut stats, b);
    overflow_stats::inc_overflow(&mut stats, a, 3);
    overflow_stats::inc_overflow(&mut stats, b, 4);
    overflow_stats::inc_insert(&mut stats, a, 9);
    overflow_stats::inc_insert(&mut stats, b, 5);
    overflow_stats::dec_side(&mut stats, a);
    overflow_stats::dec_overflow(&mut stats, a, 10);
    overflow_stats::dec_remove(&mut stats, b);
    overflow_stats::dec_miss(&mut stats, b);
    overflow_stats::get_side(&mut stats, b);
    overflow_stats::get_overflow(&mut stats, b, 2);
    overflow_stats::get_miss(&mut stats, a);
    // Nothing shows before the end but the largest number of entries.
    assert_eq!(
        overflow_stats::print_values(&stats),
        "0\t0\t0\t0\t0\t0\t0\t0\t0\t0\t0\t0\t0\t9\t0\t"
    );
    overflow_stats::stop(&mut stats);
    let values = "2\t2\t7\t2\t1\t1\t10\t1\t1\t1\t1\t2\t1\t9\t1\t";
    assert_eq!(overflow_stats::print_values(&stats), values);
    // What is counted afterwards does not show.
    overflow_stats::inc_side(&mut stats, a);
    overflow_stats::inc_insert(&mut stats, b, 100);
    assert_eq!(stats.entries_max, 100);
    assert_eq!(overflow_stats::print_values(&stats), values);
    // Until the measured part ends once more.
    let mut again = OverflowStats { threads: stats.threads.clone(), ..stats };
    overflow_stats::stop(&mut again);
    assert_eq!(
        overflow_stats::print_values(&again),
        "3\t2\t7\t3\t1\t1\t10\t1\t1\t1\t1\t2\t1\t100\t2\t"
    );
    let mut stats = again;
    let keys = overflow_stats::print_keys(&stats);
    assert_eq!(keys.matches('\t').count(), values.matches('\t').count());
    assert!(keys.starts_with("rc_overflow.inc.side\trc_overflow.inc.overflow\t"));
    assert!(keys.ends_with("\trc_overflow.entries.max\trc_overflow.entries.live\t"));
    overflow_stats::reset(&mut stats);
    overflow_stats::stop(&mut stats);
    assert_eq!(
        overflow_stats::print_values(&stats),
        "0\t0\t0\t0\t0\t0\t0\t0\t0\t0\t0\t0\t0\t0\t0\t"
    );
}

#[test]
fn nothing_is_counted_where_it_is_switched_off() {
    let mut stats = OverflowStats::new(false);
    let a = stats.register_thread();
    overflow_stats::inc_side(&mut stats, a);
    overflow_stats::inc_insert(&mut stats, a, 9);
    overflow_stats::stop(&mut stats);
    overflow_stats::reset(&mut stats);
    assert_eq!(stats.threads[a].inc_side, 0);
    assert_eq!(stats.entries_max, 0);
    assert_eq!(overflow_stats::print_keys(&stats), "");
    assert_eq!(overflow_stats::print_values(&stats), "");
}

#[test]
fn paths_are_counted() {
    let mut stats = RcPathStats::new();
    stats.inc_fast();
    stats.inc_fast();
    stats.inc_slow();
    stats.dec_fast();
    stats.dec_slow();
    stats.dec_slow();
    stats.get_fast();
    stats.get_slow();
    assert_eq!(
        RcPathStats::print_keys(),
        "rc_path.inc.fast\trc_path.inc.slow\trc_path.dec.fast\trc_path.dec.slow\trc_path.get.fast\trc_path.get.slow\t"
    );
    assert_eq!(stats.print_values(), "2\t1\t1\t2\t1\t1\t");
    let (inc, dec, get) = stats.report_rows();
    assert_eq!((inc.fast, inc.slow, inc.total), (2, 1, 3));
    assert_eq!((dec.fast, dec.slow, dec.total), (1, 2, 3));
    assert_eq!((get.fast, get.slow, get.total), (1, 1, 2));
    stats.reset();
    assert_eq!(stats.print_values(), "0\t0\t0\t0\t0\t0\t");
}
