//! A protocol definition as rules of guarded actions.
use crate::LocId;
use vstd::prelude::*;

verus! {

/// Data moves from `putter` to each of `getters`.
#[derive(Debug, Clone)]
pub struct ActionDef {
    pub putter: usize,
    pub getters: Vec<usize>,
}

/// A rule's guard.
#[derive(Debug)]
pub enum Formula {
    True,
    And(Vec<Formula>),
    Or(Vec<Formula>),
    NoneOf(Vec<Formula>),
    Eq(LocId, LocId),
}

/// Why a definition was refused.
#[derive(Debug)]
pub enum ProtoVerifyError {
    NoRules,
}

} // verus!
