//! A three-variable state token whose variables can be forgotten one at a time.
use std::marker::PhantomData;
use vstd::prelude::*;

verus! {

pub struct T;

pub struct F;

pub struct X;

/// A type that holds no data.
pub trait Token: Sized {
    fn fresh() -> Self;
}

impl Token for T {
    fn fresh() -> Self {
        T
    }
}

impl Token for F {
    fn fresh() -> Self {
        F
    }
}

impl Token for X {
    fn fresh() -> Self {
        X
    }
}

/// Values of a state variable.
pub trait Tern: Token {}

impl Tern for T {}

impl Tern for F {}

impl Tern for X {}

/// A known value.
pub trait Bin: Tern {}

impl Bin for T {}

impl Bin for F {}

/// `T` or `X`.
pub trait MaybeT: Tern {}

impl MaybeT for T {}

impl MaybeT for X {}

/// `F` or `X`.
pub trait MaybeF: Tern {}

impl MaybeF for F {}

impl MaybeF for X {}

/// The token of state `(A, B, C)`.
pub struct State<A: Tern, B: Tern, C: Tern> {
    pub phantom: PhantomData<(A, B, C)>,
}

impl<A: Tern, B: Tern, C: Tern> Token for State<A, B, C> {
    fn fresh() -> Self {
        State { phantom: PhantomData }
    }
}

impl<A: Tern, B: Tern, C: Tern> State<A, B, C> {
    pub fn fresh() -> Self {
        State { phantom: PhantomData }
    }
}

impl<A: Bin, B: Tern, C: Tern> State<A, B, C> {
    /// Forgets the first variable.
    pub fn weaken_a(self) -> State<X, B, C> {
        State { phantom: PhantomData }
    }
}

impl<A: Tern, B: Bin, C: Tern> State<A, B, C> {
    /// Forgets the second variable.
    pub fn weaken_b(self) -> State<A, X, C> {
        State { phantom: PhantomData }
    }
}

impl<A: Tern, B: Tern, C: Bin> State<A, B, C> {
    /// Forgets the third variable.
    pub fn weaken_c(self) -> State<A, B, X> {
        State { phantom: PhantomData }
    }
}

} // verus!
