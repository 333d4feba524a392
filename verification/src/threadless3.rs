//! Port and memory ids that index bits.
use vstd::prelude::*;

verus! {

/// An id that names a bit.
pub trait BitIndexed: Copy {
    spec fn spec_bit(self) -> nat;

    fn bit(self) -> (r: usize)
        ensures
            r == self.spec_bit(),
    ;
}

/// A port's putter id.
#[derive(Debug, Copy, Clone)]
pub struct Ppid(pub usize);

/// A port's getter id.
#[derive(Debug, Copy, Clone)]
pub struct Pgid(pub usize);

/// A memory cell's putter id.
#[derive(Debug, Copy, Clone)]
pub struct Mpid(pub usize);

/// A memory cell's getter id.
#[derive(Debug, Copy, Clone)]
pub struct Mgid(pub usize);

impl BitIndexed for Ppid {
    open spec fn spec_bit(self) -> nat {
        self.0 as nat
    }

    fn bit(self) -> (r: usize) {
        self.0
    }
}

impl BitIndexed for Pgid {
    open spec fn spec_bit(self) -> nat {
        self.0 as nat
    }

    fn bit(self) -> (r: usize) {
        self.0
    }
}

impl BitIndexed for Mpid {
    open spec fn spec_bit(self) -> nat {
        self.0 as nat
    }

    fn bit(self) -> (r: usize) {
        self.0
    }
}

impl BitIndexed for Mgid {
    open spec fn spec_bit(self) -> nat {
        self.0 as nat
    }

    fn bit(self) -> (r: usize) {
        self.0
    }
}

} // verus!
