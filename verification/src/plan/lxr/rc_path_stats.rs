//! Counters of how many operations on reference counts were served by the side
//! table alone, and how many needed the overflow table.

use crate::util::text;
use crate::util::text::{cells_string, decimal_strings};
use vstd::prelude::*;

verus! {

/// The counters. They wrap.
#[derive(Clone, Copy, Debug, PartialEq, Eq, Structural)]
pub struct RcPathStats {
    /// Increments that the side table served.
    pub inc_fast: u64,
    /// Increments that needed the overflow table.
    pub inc_slow: u64,
    /// Decrements that the side table served.
    pub dec_fast: u64,
    /// Decrements that needed the overflow table.
    pub dec_slow: u64,
    /// Reads that the side table served.
    pub get_fast: u64,
    /// Reads that needed the overflow table.
    pub get_slow: u64,
}

/// The counters of one operation, and their sum.
#[derive(Clone, Copy, Debug, PartialEq, Eq, Structural)]
pub struct PathCount {
    /// Served by the side table.
    pub fast: u64,
    /// Served by the overflow table.
    pub slow: u64,
    /// Both. The sum wraps.
    pub total: u64,
}

/// The names of the columns.
pub open spec fn key_cells() -> Seq<Seq<char>> {
    seq![
        "rc_path.inc.fast"@,
        "rc_path.inc.slow"@,
        "rc_path.dec.fast"@,
        "rc_path.dec.slow"@,
        "rc_path.get.fast"@,
        "rc_path.get.slow"@,
    ]
}

/// The counts of one operation.
pub open spec fn path_count(fast: u64, slow: u64) -> PathCount {
    PathCount { fast, slow, total: fast.wrapping_add(slow) }
}

impl RcPathStats {
    /// The counters in the order of their columns.
    pub open spec fn columns(self) -> Seq<u64> {
        seq![
            self.inc_fast,
            self.inc_slow,
            self.dec_fast,
            self.dec_slow,
            self.get_fast,
            self.get_slow,
        ]
    }

    /// The counters after one more increment, which needed the overflow table if
    /// `slow`.
    pub open spec fn after_inc(self, slow: bool) -> RcPathStats {
        if slow {
            RcPathStats { inc_slow: self.inc_slow.wrapping_add(1), ..self }
        } else {
            RcPathStats { inc_fast: self.inc_fast.wrapping_add(1), ..self }
        }
    }

    /// The counters after one more decrement, which needed the overflow table if
    /// `slow`.
    pub open spec fn after_dec(self, slow: bool) -> RcPathStats {
        if slow {
            RcPathStats { dec_slow: self.dec_slow.wrapping_add(1), ..self }
        } else {
            RcPathStats { dec_fast: self.dec_fast.wrapping_add(1), ..self }
        }
    }

    /// The counters after one more read, which needed the overflow table if
    /// `slow`.
    pub open spec fn after_get(self, slow: bool) -> RcPathStats {
        if slow {
            RcPathStats { get_slow: self.get_slow.wrapping_add(1), ..self }
        } else {
            RcPathStats { get_fast: self.get_fast.wrapping_add(1), ..self }
        }
    }

    /// Counters that are all zero.
    pub fn new() -> (r: RcPathStats)
        ensures
            r == (RcPathStats {
                inc_fast: 0,
                inc_slow: 0,
                dec_fast: 0,
                dec_slow: 0,
                get_fast: 0,
                get_slow: 0,
            }),
    {
        RcPathStats { inc_fast: 0, inc_slow: 0, dec_fast: 0, dec_slow: 0, get_fast: 0, get_slow: 0 }
    }

    /// Counts an increment that the side table served.
    pub fn inc_fast(&mut self)
        ensures
            *final(self) == (RcPathStats {
                inc_fast: old(self).inc_fast.wrapping_add(1),
                ..*old(self)
            }),
    {
        self.inc_fast = self.inc_fast.wrapping_add(1);
    }

    /// Counts an increment that needed the overflow table.
    pub fn inc_slow(&mut self)
        ensures
            *final(self) == (RcPathStats {
                inc_slow: old(self).inc_slow.wrapping_add(1),
                ..*old(self)
            }),
    {
        self.inc_slow = self.inc_slow.wrapping_add(1);
    }

    /// Counts a decrement that the side table served.
    pub fn dec_fast(&mut self)
        ensures
            *final(self) == (RcPathStats {
                dec_fast: old(self).dec_fast.wrapping_add(1),
                ..*old(self)
            }),
    {
        self.dec_fast = self.dec_fast.wrapping_add(1);
    }

    /// Counts a decrement that needed the overflow table.
    pub fn dec_slow(&mut self)
        ensures
            *final(self) == (RcPathStats {
                dec_slow: old(self).dec_slow.wrapping_add(1),
                ..*old(self)
            }),
    {
        self.dec_slow = self.dec_slow.wrapping_add(1);
    }

    /// Counts a read that the side table served.
    pub fn get_fast(&mut self)
        ensures
            *final(self) == (RcPathStats {
                get_fast: old(self).get_fast.wrapping_add(1),
                ..*old(self)
            }),
    {
        self.get_fast = self.get_fast.wrapping_add(1);
    }

    /// Counts a read that needed the overflow table.
    pub fn get_slow(&mut self)
        ensures
            *final(self) == (RcPathStats {
                get_slow: old(self).get_slow.wrapping_add(1),
                ..*old(self)
            }),
    {
        self.get_slow = self.get_slow.wrapping_add(1);
    }

    /// Begins the measured part: every counter is zero.
    pub fn reset(&mut self)
        ensures
            *final(self) == (RcPathStats {
                inc_fast: 0,
                inc_slow: 0,
                dec_fast: 0,
                dec_slow: 0,
                get_fast: 0,
                get_slow: 0,
            }),
    {
        *self = RcPathStats::new();
    }

    /// The names of the columns, with a tab behind each.
    pub fn print_keys() -> (r: String)
        ensures
            r@ == text::cells_with(key_cells(), "\t"@),
    {
        let cells: Vec<String> = vec![
            "rc_path.inc.fast".to_owned(),
            "rc_path.inc.slow".to_owned(),
            "rc_path.dec.fast".to_owned(),
            "rc_path.dec.slow".to_owned(),
            "rc_path.get.fast".to_owned(),
            "rc_path.get.slow".to_owned(),
        ];
        assert(text::string_texts(cells@) =~= key_cells());
        cells_string(&cells, "\t")
    }

    /// The values of the columns, with a tab behind each.
    pub fn print_values(&self) -> (r: String)
        ensures
            r@ == text::cells_with(text::decimals(self.columns()), "\t"@),
    {
        let numbers: Vec<u64> = vec![
            self.inc_fast,
            self.inc_slow,
            self.dec_fast,
            self.dec_slow,
            self.get_fast,
            self.get_slow,
        ];
        assert(numbers@ =~= self.columns());
        let cells = decimal_strings(&numbers);
        cells_string(&cells, "\t")
    }

    /// The counts of increments, decrements and reads, for a report.
    pub fn report_rows(&self) -> (r: (PathCount, PathCount, PathCount))
        ensures
            r == (
                path_count(self.inc_fast, self.inc_slow),
                path_count(self.dec_fast, self.dec_slow),
                path_count(self.get_fast, self.get_slow),
            ),
    {
        (
            PathCount {
                fast: self.inc_fast,
                slow: self.inc_slow,
                total: self.inc_fast.wrapping_add(self.inc_slow),
            },
            PathCount {
                fast: self.dec_fast,
                slow: self.dec_slow,
                total: self.dec_fast.wrapping_add(self.dec_slow),
            },
            PathCount {
                fast: self.get_fast,
                slow: self.get_slow,
                total: self.get_fast.wrapping_add(self.get_slow),
            },
        )
    }
}

/// Every operation is counted once: the fast and slow paths of the operation
/// together have one more, and those of the other operations what they had.
pub proof fn operations_are_counted_once(s: RcPathStats, slow: bool)
    ensures
        ({
            let n = s.after_inc(slow);
            &&& n.inc_fast.wrapping_add(n.inc_slow) == s.inc_fast.wrapping_add(
                s.inc_slow,
            ).wrapping_add(1)
            &&& (n.dec_fast, n.dec_slow, n.get_fast, n.get_slow) == (
                s.dec_fast,
                s.dec_slow,
                s.get_fast,
                s.get_slow,
            )
        }),
        ({
            let n = s.after_dec(slow);
            &&& n.dec_fast.wrapping_add(n.dec_slow) == s.dec_fast.wrapping_add(
                s.dec_slow,
            ).wrapping_add(1)
            &&& (n.inc_fast, n.inc_slow, n.get_fast, n.get_slow) == (
                s.inc_fast,
                s.inc_slow,
                s.get_fast,
                s.get_slow,
            )
        }),
        ({
            let n = s.after_get(slow);
            &&& n.get_fast.wrapping_add(n.get_slow) == s.get_fast.wrapping_add(
                s.get_slow,
            ).wrapping_add(1)
            &&& (n.inc_fast, n.inc_slow, n.dec_fast, n.dec_slow) == (
                s.inc_fast,
                s.inc_slow,
                s.dec_fast,
                s.dec_slow,
            )
        }),
{
}

/// Every name of a column has a value: names and values are matched by their
/// order.
pub proof fn columns_are_aligned(s: RcPathStats)
    ensures
        key_cells().len() == text::decimals(s.columns()).len(),
{
}

} // verus!
