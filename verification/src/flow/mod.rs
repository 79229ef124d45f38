//! Flow definitions and the rules a definition has to meet.
pub mod dag;
pub mod laws;
pub mod rule_laws;
pub mod schema;
pub mod types;
pub mod validate;
