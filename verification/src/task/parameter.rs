//! Formal parameters of an action.

use vstd::prelude::*;

verus! {

/// A formal parameter of an action: the slot that one entry of a grounding
/// fills.
#[derive(Debug, Clone, Hash, PartialEq, Eq)]
pub struct Parameter {
    /// Name of the parameter, for diagnostics.
    pub name: String,
    /// Identifier of the type that a value for this parameter must have.
    pub type_index: usize,
}

} // verus!
