//! A small HTTP endpoint core: request parsing and routing, a flat-JSON codec,
//! an in-memory record store, an arithmetic bridge and a worker-pool scheduler.
pub mod text;
pub mod json;
pub mod store;
pub mod http;
pub mod math;
pub mod pool;
