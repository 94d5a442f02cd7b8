//! The library server's core: advisory locks, request checks and the
//! row and primitive stores.

pub mod locks;
pub mod api;
pub mod store;
pub mod routes;
