//! A verified core for a distributed evolutionary simulation in which each
//! organism's genome is a small instruction set compiled to WebAssembly.

pub mod arith;
pub mod types;
pub mod ir;
pub mod world;
pub mod error;
pub mod rng;
pub mod config;
pub mod fitness;
pub mod runtime;
pub mod server;
