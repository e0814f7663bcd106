use vstd::prelude::*;

pub mod actuator;
pub mod adapter;
pub mod arithmetic;
pub mod catalog;
pub mod chemistry;
pub mod component;
pub mod controller;
pub mod declaration;
pub mod double;
pub mod dynamic_model;
pub mod io_image;
pub mod laws;
pub mod links;
pub mod numerical_method;
pub mod order;
pub mod plant;
pub mod resolution;
pub mod runtime;
pub mod runtime_control;
pub mod sensor;
pub mod sharing;
pub mod simulation;
pub mod snapshot;
pub mod state_registry;
pub mod table;
pub mod text;

verus! {
}
