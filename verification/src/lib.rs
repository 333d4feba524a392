use vstd::prelude::*;

pub mod any_map;
pub mod bitfield;
pub mod bits;
pub mod bitset;
pub mod logic;
pub mod port;
pub mod port_backend;
pub mod preventative;
pub mod primitives;
pub mod preventative_rba;
pub mod proto;
pub mod quatset;
pub mod rba_api_w_roy;
pub mod rba_builder;
pub mod rba_order;
pub mod rba_pair;
pub mod rba_preprocess;
pub mod rba_normalize;
pub mod rbpa;
pub mod rbpa_normalize;
pub mod reo;
pub mod sketches;
pub mod threadless2;
pub mod threadless3;
pub mod token_eg;
pub mod tokens;
pub mod val;

verus! {

/// Generalizes over port and memory cell "name".
pub type LocId = usize;

pub type RuleId = usize;

} // verus!
