//! Core of a pluggable static-analysis wrapper for a host compiler.
//!
//! The crate models the bootstrap-and-compose protocol of a linter driver:
//! the wrapper binary's self-report of its execution parameters (path and
//! environment), the JSON wire format that carries that report between two
//! processes, the deterministic flag injection and callback composition of
//! the driver mode, and the orchestrator's three-step bootstrap state
//! machine.  Process spawning and the host compiler itself stay outside;
//! this library computes every decision from plain values.

pub mod checks;
pub mod codec;
pub mod driver;
pub mod orchestrator;
pub mod params;
pub mod registry;
