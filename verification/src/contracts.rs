//! Typed contracts shared by the standard workflow and the operations the run carries out.

pub mod analyst;
pub mod context;
pub mod overseer;
pub mod scout;
