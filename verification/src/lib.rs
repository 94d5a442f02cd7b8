//! Verified core of the Oxide EDA toolchain: Altium record parsing and
//! conversion, AI part validation, co-simulation logic, the CPU compute
//! backend, PCB room channel matching and the library server's lock and
//! row stores.

pub mod ai;
pub mod altium;
pub mod compute;
pub mod cosim;
pub mod engine;
pub mod ids;
pub mod num;
pub mod server;
pub mod text;
pub mod ui;
