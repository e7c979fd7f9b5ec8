//! Memory mapped IO mechanisms.
//!
//! The devices (UART and monitor) are seen through the bytes sent to
//! the UART transmit register, collected in an output buffer that
//! the caller hands on to the hardware.

pub mod uart;
pub mod monitor;
