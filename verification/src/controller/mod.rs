//! What closes a loop between readings and commands.
pub mod model;

use vstd::prelude::*;

verus! {

/// The place of a controller beside sensors and actuators. How one decides is left open.
pub trait Controller {

}

} // verus!
