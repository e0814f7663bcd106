//! Handles on one instance.
//!
//! A component that is catalogued and evaluated is one instance with two handles: what one of them
//! does the other sees.
use std::rc::Rc;
use vstd::prelude::*;

verus! {

/// Calls `Rc::clone`, which gives another handle on the same allocation.
#[verifier::external_body]
fn another_handle<T>(handle: &Rc<T>) -> (other: Rc<T>)
    ensures
        *other == **handle,
{
    Rc::clone(handle)
}

/// Two handles on one value.
pub fn shared<T>(value: T) -> (handles: (Rc<T>, Rc<T>))
    ensures
        *handles.0 == value,
        *handles.1 == value,
{
    let first: Rc<T> = Rc::new(value);
    let second: Rc<T> = another_handle(&first);
    (first, second)
}

} // verus!
