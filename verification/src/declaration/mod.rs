//! Declarations of components.
//!
//! A component may be declared by annotated fields in place of code: which keys it publishes, which
//! it needs, which of them an integrator advances, and where they start. The modules here decide
//! what such a declaration means, or why it means nothing.
pub mod announcing;
pub mod arguments;
pub mod fields;
pub mod model;
pub mod parts;
pub mod reading;
pub mod running;
pub mod signals;
pub mod source;
pub mod tasks;
