//! The object model that the collector sees.

pub mod heap;
pub mod heap_laws;
