//! Register programs for an Allwinner A10/A20 boot loader: every device routine
//! describes the memory-mapped register accesses it performs as a list of
//! [`devices::io::RegOp`] values, and a small board runtime carries them out.
pub mod devices;
pub mod boot;
pub mod uart;
pub mod hello;
