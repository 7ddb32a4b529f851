//! Execution-unit core of a data-oriented concurrent runtime.
pub mod archetypes;
pub mod builder;
pub mod command;
pub mod permissions;
pub mod query;
pub mod resources;
pub mod subworld;
pub mod system;
pub mod world;
