//! What makes an algebraic loop converge.
use vstd::prelude::*;

verus! {

/// The counterpart of an integrator in the algebraic dimension: two components that need the value
/// of each other at one instant. It has a name and no operation.
pub trait Interator {
    fn name(&self) -> (name: &'static str)
        default_ensures
            name@ == "unnamed"@,
    {
        "unnamed"
    }
}

} // verus!
