//! Addresses, side metadata and reference counts.

pub mod address;
pub mod gc_trigger;
pub mod layout_laws;
pub mod option_laws;
pub mod option_table;
pub mod options;
pub mod rc;
pub mod rc_laws;
pub mod sanity_checker;
pub mod sanity_laws;
pub mod side_metadata;
pub mod spec_defs;
pub mod table_laws;
pub mod text;
pub mod text_laws;
pub mod trigger_laws;
