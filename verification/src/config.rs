//! Configuration constants.

pub mod constants;
