//! A protocol as rules over locations, with predicates as guards.
use crate::LocId;
use vstd::prelude::*;

verus! {

/// Data moves from `putter` to each of `getters`.
#[derive(Debug, Clone)]
pub struct Action {
    pub putter: LocId,
    pub getters: Vec<LocId>,
}

/// A guard.
#[derive(Debug)]
pub enum Pred {
    True,
    NoneOf(Vec<Pred>),
    And(Vec<Pred>),
    Or(Vec<Pred>),
    Eq(LocId, LocId),
}

} // verus!
