//! Reference counting and cycle collection for a region-based heap: side
//! metadata tables, biased reference counts with an overflow table, trial
//! deletion of garbage cycles, the field write barrier that feeds it, the
//! sanity checks on its result, and the runtime options that configure it.

pub mod plan;
pub mod util;
pub mod vm;
