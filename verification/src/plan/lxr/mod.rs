//! The LXR plan: reference counting with trial deletion of cycles.

pub mod barrier;
pub mod barrier_laws;
pub mod buffer;
pub mod buffer_laws;
pub mod cycle_complete;
pub mod cycle_grey;
pub mod cycle_held;
pub mod cycle_laws;
pub mod cycle_model;
pub mod cycle_phases;
pub mod cycle_reclaim;
pub mod cycle_soundness;
pub mod cycle_stats;
pub mod cycle_tags;
pub mod dead_laws;
pub mod gc_work;
pub mod global;
pub mod graph_laws;
pub mod graphs_project;
pub mod overflow_rc_cache;
pub mod overflow_stats;
pub mod rc_path_stats;
pub mod plan_laws;
pub mod pool_laws;
pub mod readiness;
pub mod report_laws;
pub mod stack;
pub mod stats_laws;
pub mod step_laws;
