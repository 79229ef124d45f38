//! The state of a run and the engine that decides what happens next.
pub mod derive;
pub mod engine;
pub mod laws;
pub mod route_laws;
pub mod types;
