//! Multi-domain co-simulation: 12-state logic, the FPGA bridge and
//! session status.

pub mod fpga;
pub mod logic;
pub mod session;
