//! Two tokens that alternate: putting turns a `U` into a `V`.
use vstd::prelude::*;

verus! {

pub struct U;

pub struct V;

/// Puts a datum, trading the `U` token for a `V`.
pub fn put(u: U, datum: u32) -> V {
    V
}

} // verus!
