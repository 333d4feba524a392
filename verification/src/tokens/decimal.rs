//! Type-level numbers: a chain of digit types whose value is known to the program.
use crate::tokens::Token;
use std::marker::PhantomData;
use vstd::prelude::*;

verus! {

/// A number carried by a type: the sum of its digits.
pub trait Decimal: Token {
    spec fn spec_n() -> nat;

    fn n() -> (r: usize)
        requires
            Self::spec_n() <= usize::MAX,
        ensures
            r == Self::spec_n(),
    ;
}

/// Decimal digit 0 followed by the digits of `T` (`()` ends the number).
pub struct D0<T> {
    pub phantom: PhantomData<T>,
}

impl<T: Token> Token for D0<T> {
    fn fresh() -> Self {
        D0 { phantom: PhantomData }
    }
}

impl<T: Decimal> Decimal for D0<T> {
    open spec fn spec_n() -> nat {
        T::spec_n() + 0
    }

    fn n() -> (r: usize) {
        T::n() + 0
    }
}

impl Decimal for D0<()> {
    open spec fn spec_n() -> nat {
        0
    }

    fn n() -> (r: usize) {
        0
    }
}

pub type E0 = D0<()>;

/// Decimal digit 1 followed by the digits of `T` (`()` ends the number).
pub struct D1<T> {
    pub phantom: PhantomData<T>,
}

impl<T: Token> Token for D1<T> {
    fn fresh() -> Self {
        D1 { phantom: PhantomData }
    }
}

impl<T: Decimal> Decimal for D1<T> {
    open spec fn spec_n() -> nat {
        T::spec_n() + 1
    }

    fn n() -> (r: usize) {
        T::n() + 1
    }
}

impl Decimal for D1<()> {
    open spec fn spec_n() -> nat {
        1
    }

    fn n() -> (r: usize) {
        1
    }
}

pub type E1 = D1<()>;

/// Decimal digit 2 followed by the digits of `T` (`()` ends the number).
pub struct D2<T> {
    pub phantom: PhantomData<T>,
}

impl<T: Token> Token for D2<T> {
    fn fresh() -> Self {
        D2 { phantom: PhantomData }
    }
}

impl<T: Decimal> Decimal for D2<T> {
    open spec fn spec_n() -> nat {
        T::spec_n() + 2
    }

    fn n() -> (r: usize) {
        T::n() + 2
    }
}

impl Decimal for D2<()> {
    open spec fn spec_n() -> nat {
        2
    }

    fn n() -> (r: usize) {
        2
    }
}

pub type E2 = D2<()>;

/// Decimal digit 3 followed by the digits of `T` (`()` ends the number).
pub struct D3<T> {
    pub phantom: PhantomData<T>,
}

impl<T: Token> Token for D3<T> {
    fn fresh() -> Self {
        D3 { phantom: PhantomData }
    }
}

impl<T: Decimal> Decimal for D3<T> {
    open spec fn spec_n() -> nat {
        T::spec_n() + 3
    }

    fn n() -> (r: usize) {
        T::n() + 3
    }
}

impl Decimal for D3<()> {
    open spec fn spec_n() -> nat {
        3
    }

    fn n() -> (r: usize) {
        3
    }
}

pub type E3 = D3<()>;

/// Decimal digit 4 followed by the digits of `T` (`()` ends the number).
pub struct D4<T> {
    pub phantom: PhantomData<T>,
}

impl<T: Token> Token for D4<T> {
    fn fresh() -> Self {
        D4 { phantom: PhantomData }
    }
}

impl<T: Decimal> Decimal for D4<T> {
    open spec fn spec_n() -> nat {
        T::spec_n() + 4
    }

    fn n() -> (r: usize) {
        T::n() + 4
    }
}

impl Decimal for D4<()> {
    open spec fn spec_n() -> nat {
        4
    }

    fn n() -> (r: usize) {
        4
    }
}

pub type E4 = D4<()>;

/// Decimal digit 5 followed by the digits of `T` (`()` ends the number).
pub struct D5<T> {
    pub phantom: PhantomData<T>,
}

impl<T: Token> Token for D5<T> {
    fn fresh() -> Self {
        D5 { phantom: PhantomData }
    }
}

impl<T: Decimal> Decimal for D5<T> {
    open spec fn spec_n() -> nat {
        T::spec_n() + 5
    }

    fn n() -> (r: usize) {
        T::n() + 5
    }
}

impl Decimal for D5<()> {
    open spec fn spec_n() -> nat {
        5
    }

    fn n() -> (r: usize) {
        5
    }
}

pub type E5 = D5<()>;

/// Decimal digit 6 followed by the digits of `T` (`()` ends the number).
pub struct D6<T> {
    pub phantom: PhantomData<T>,
}

impl<T: Token> Token for D6<T> {
    fn fresh() -> Self {
        D6 { phantom: PhantomData }
    }
}

impl<T: Decimal> Decimal for D6<T> {
    open spec fn spec_n() -> nat {
        T::spec_n() + 6
    }

    fn n() -> (r: usize) {
        T::n() + 6
    }
}

impl Decimal for D6<()> {
    open spec fn spec_n() -> nat {
        6
    }

    fn n() -> (r: usize) {
        6
    }
}

pub type E6 = D6<()>;

/// Decimal digit 7 followed by the digits of `T` (`()` ends the number).
pub struct D7<T> {
    pub phantom: PhantomData<T>,
}

impl<T: Token> Token for D7<T> {
    fn fresh() -> Self {
        D7 { phantom: PhantomData }
    }
}

impl<T: Decimal> Decimal for D7<T> {
    open spec fn spec_n() -> nat {
        T::spec_n() + 7
    }

    fn n() -> (r: usize) {
        T::n() + 7
    }
}

impl Decimal for D7<()> {
    open spec fn spec_n() -> nat {
        7
    }

    fn n() -> (r: usize) {
        7
    }
}

pub type E7 = D7<()>;

/// Decimal digit 8 followed by the digits of `T` (`()` ends the number).
pub struct D8<T> {
    pub phantom: PhantomData<T>,
}

impl<T: Token> Token for D8<T> {
    fn fresh() -> Self {
        D8 { phantom: PhantomData }
    }
}

impl<T: Decimal> Decimal for D8<T> {
    open spec fn spec_n() -> nat {
        T::spec_n() + 8
    }

    fn n() -> (r: usize) {
        T::n() + 8
    }
}

impl Decimal for D8<()> {
    open spec fn spec_n() -> nat {
        8
    }

    fn n() -> (r: usize) {
        8
    }
}

pub type E8 = D8<()>;

/// Decimal digit 9 followed by the digits of `T` (`()` ends the number).
pub struct D9<T> {
    pub phantom: PhantomData<T>,
}

impl<T: Token> Token for D9<T> {
    fn fresh() -> Self {
        D9 { phantom: PhantomData }
    }
}

impl<T: Decimal> Decimal for D9<T> {
    open spec fn spec_n() -> nat {
        T::spec_n() + 9
    }

    fn n() -> (r: usize) {
        T::n() + 9
    }
}

impl Decimal for D9<()> {
    open spec fn spec_n() -> nat {
        9
    }

    fn n() -> (r: usize) {
        9
    }
}

pub type E9 = D9<()>;

} // verus!
