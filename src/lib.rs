//! A cycle-level model of an out-of-order core: register renaming through a
//! register alias table, a reorder buffer that retires in order, reservation
//! stations, and single-cycle functional units.

pub mod prim;
pub mod util;
pub mod rob;
pub mod rat;
pub mod unit;
pub mod sched;
pub mod isa;
pub mod pipeline;
pub mod laws;
