//! What a generated protocol offers: its ports and its automaton.
use vstd::prelude::*;

verus! {

/// The automaton of a protocol.
pub struct PortAutomaton;

/// A port of a protocol's interface.
pub trait Port {}

/// A tuple of ports.
pub trait PortTuple {}

impl<A: Port> PortTuple for (A,) {}

impl<A: Port, B: Port> PortTuple for (A, B) {}

impl<A: Port, B: Port, C: Port> PortTuple for (A, B, C) {}

impl<A: Port, B: Port, C: Port, D: Port> PortTuple for (A, B, C, D) {}

/// A protocol: the ports it hands out and its automaton.
pub trait Protocol {
    type Interface: PortTuple;

    fn port_automaton() -> PortAutomaton;
}

} // verus!
