//! Counters on cycle collections.

use crate::util::text;
use crate::util::text::{cells_string, decimal_string, decimal_strings};
use vstd::prelude::*;
use vstd::string::*;

verus! {

/// Counters on one cycle collection. The counters wrap.
#[derive(Clone, Copy, Debug, PartialEq, Eq, Structural)]
pub struct CycleCollectorStats {
    /// Candidates that were drained.
    pub raw_cycle_candidates: usize,
    /// Candidates that were marked from.
    pub candidates_after_filter: usize,
    /// Objects that trial deletion went into.
    pub objects_in_mark: usize,
    /// Objects that the scan looked at.
    pub objects_in_scan: usize,
    /// Objects that the scan restored.
    pub objects_in_scan_black: usize,
    /// Objects that the collection looked at.
    pub objects_in_collect: usize,
    /// Slots that were logged during the collection.
    pub satb_map_size: usize,
    /// Reads of such slots.
    pub satb_reads: usize,
}

/// The first line of the file of counters.
pub open spec fn stats_header() -> Seq<char> {
    "raw_cycle_candidates,candidates_after_filter,objects_in_mark,objects_in_scan,objects_in_scan_black,objects_in_collect,satb_map_size,satb_reads\n"@
}

impl CycleCollectorStats {
    /// The counters in the order of their columns.
    pub open spec fn columns(self) -> Seq<Seq<char>> {
        text::decimals(
            seq![
                self.raw_cycle_candidates as u64,
                self.candidates_after_filter as u64,
                self.objects_in_mark as u64,
                self.objects_in_scan as u64,
                self.objects_in_scan_black as u64,
                self.objects_in_collect as u64,
                self.satb_map_size as u64,
                self.satb_reads as u64,
            ],
        )
    }

    /// The lines that the counters add to their file: a first line with the names
    /// of the columns where the file is new or empty, and a line with the values.
    pub fn log_lines(&self, needs_header: bool) -> (r: String)
        ensures
            r@ == (if needs_header {
                stats_header()
            } else {
                Seq::<char>::empty()
            }) + text::cells_with(self.columns().drop_last(), ","@) + self.columns().last()
                + "\n"@,
    {
        let first: Vec<u64> = vec![
            self.raw_cycle_candidates as u64,
            self.candidates_after_filter as u64,
            self.objects_in_mark as u64,
            self.objects_in_scan as u64,
            self.objects_in_scan_black as u64,
            self.objects_in_collect as u64,
            self.satb_map_size as u64,
        ];
        assert(text::decimals(first@) =~= self.columns().drop_last());
        let cells = decimal_strings(&first);
        let values = cells_string(&cells, ",");
        let last = decimal_string(self.satb_reads as u64);
        let mut out = String::new();
        assert(out@ =~= Seq::<char>::empty());
        if needs_header {
            out.append(
                "raw_cycle_candidates,candidates_after_filter,objects_in_mark,objects_in_scan,objects_in_scan_black,objects_in_collect,satb_map_size,satb_reads\n",
            );
            assert(out@ =~= stats_header());
        }
        out.append(values.as_str());
        out.append(last.as_str());
        out.append("\n");
        out
    }
}

} // verus!
