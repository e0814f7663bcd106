//! What the library promises, stated of what goes into its operations and what comes out of them.
//!
//! Each law holds of all inputs. It says in the terms of the inputs and the results what an operation
//! is for, or how two uses of it are related.
pub mod adapters;
pub mod arguments;
pub mod chemistry;
pub mod commands;
pub mod delegation;
pub mod fields;
pub mod integration;
pub mod models;
pub mod numbers;
pub mod parts;
pub mod plant;
pub mod reading;
pub mod registry;
pub mod running;
pub mod signals;
pub mod simulation;
pub mod snapshot;
pub mod tasks;
