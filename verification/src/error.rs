//! The failures that the runtime reports or carries across a switch.

use crate::value::Value;
use vstd::prelude::*;

verus! {

/// A failure reported by the runtime, or raised by a body and carried to its resumer.
#[derive(Clone, Debug, PartialEq, Eq)]
pub enum Error {
    /// A checked access to a transfer slot expected another kind of value
    /// than the slot was declared for.
    TypeErr,
    /// The context named cannot be entered, left or released in its present state.
    ContextErr,
    /// A body failed; the payload is what it failed with.
    Failure(Value),
}

} // verus!
