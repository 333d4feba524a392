//! Protocols: definitions, their compilation into runnable rules, and the coordinator.
pub mod collections;
pub mod definition;
pub mod compile;
pub mod runtime;
pub mod messages;
pub mod reflection;
pub mod traits;
pub mod abstraction;
pub mod groups;
pub mod groups2;
pub mod nu_def;

use crate::bitset::BitSet;
use crate::{LocId, RuleId};
use vstd::prelude::*;

verus! {

/// Why a group of ports could not be formed.
#[derive(Debug, Copy, Clone)]
pub enum PortGroupError {
    EmptyGroup,
    MemId(LocId),
    SynchronousWithRule(RuleId),
}

/// Data moves from `putter` to each of `getters`.
pub struct ActionDef {
    pub putter: LocId,
    pub getters: Vec<LocId>,
}

/// The memory and readiness bits of a protocol's state.
pub struct ProtoState {
    pub data: BitSet,
}

} // verus!
