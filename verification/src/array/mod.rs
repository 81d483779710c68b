//! Arrays over contiguous slots: one that keeps its capacity and one that
//! resizes itself.

pub mod dynamic_array;
pub mod static_array;
