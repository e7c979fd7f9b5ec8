//! Processing mechanisms.
//!
//! This module contains the process control blocks, the process
//! table with its queries, the scheduling decision, condition
//! variables and the nesting of interrupt-disabling locks.

pub mod control_types;
pub mod processing;
pub mod round_robin;
pub mod scheduler;
pub mod sync;
pub mod spin;
