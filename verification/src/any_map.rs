//! Errors of a map from keys to values of any type.
use vstd::prelude::*;

verus! {

/// Why a value could not be stored.
#[derive(Debug, Copy, Clone)]
pub enum AllocationError {
    DropFnInconsistent,
    RepeatedKey,
}

} // verus!
