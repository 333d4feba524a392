//! Errors of grouping ports of one protocol instance.
use crate::LocId;
use vstd::prelude::*;

verus! {

/// The port belongs to another instance of the protocol.
#[derive(Debug, Copy, Clone)]
pub struct DifferentProtoInstance;

/// A port of the group was claimed already.
#[derive(Debug, Copy, Clone)]
pub enum PortGroupError {
    PortAlreadyClaimed(LocId),
}

} // verus!
