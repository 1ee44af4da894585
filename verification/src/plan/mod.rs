//! Collection plans.

pub mod immix;
pub mod lxr;
