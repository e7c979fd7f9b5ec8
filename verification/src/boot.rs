//! Kernel boot: the machine mode configuration of the hardware.

pub mod hard_config;
