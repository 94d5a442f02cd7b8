//! PCB layout engine: multi-channel room matching.

pub mod room;
