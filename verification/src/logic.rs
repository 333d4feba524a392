//! Type-level logic: which three-variable states admit which options.
use std::marker::PhantomData;
use vstd::prelude::*;

verus! {

pub struct T;

pub struct F;

/// A boolean variable at the type level.
pub trait Var {}

impl Var for T {}

impl Var for F {}

/// The negation of a variable.
pub struct Neg<V: Var> {
    pub phantom: PhantomData<V>,
}

/// Terms whose NAND holds: a nested pair is NAND-true when either side is.
pub trait Nand {}

impl Nand for F {}

impl Nand for Neg<T> {}

impl<A: Nand> Nand for (A, T) {}

impl<A: Nand> Nand for (A, Neg<F>) {}

impl<B: Nand> Nand for (T, B) {}

impl<B: Nand> Nand for (Neg<F>, B) {}

/// A state with the options it offers.
pub trait Advance: Sized {
    type Opts;

    fn advance(self) -> Self::Opts;
}

impl Advance for (T, T, F) {
    type Opts = u32;

    fn advance(self) -> (r: u32)
        ensures
            r == 0,
    {
        0
    }
}

/// Takes the options of the state `(T, T, F)`.
pub fn test() -> (r: u32)
    ensures
        r == 0,
{
    let x: (T, T, F) = (T, T, F);
    x.advance()
}

} // verus!
