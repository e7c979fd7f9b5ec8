//! File formats.

pub mod elf;
