//! Zero-sized tokens that carry a protocol's state in the type system, and the run-time
//! choice between the branches that a state allows.
pub mod decimal;

use crate::bitset::BitSet;
use crate::tokens::decimal::Decimal;
use crate::LocId;
use std::marker::PhantomData;
use vstd::prelude::*;

verus! {

/// A type that holds no data, so that a value of it can be made without context.
pub trait Token: Sized {
    fn fresh() -> Self;
}

impl Token for () {
    fn fresh() -> Self {
        ()
    }
}

/// A port wrapped so that it can only be used with a coupon for port `D`.
pub struct Safe<D: Decimal, T> {
    pub original_id: LocId,
    pub inner: T,
    pub phantom: PhantomData<D>,
}

impl<D: Decimal, T> Safe<D, T> {
    /// Wraps `inner`, remembering the id it had before it was led by another.
    pub fn wrap(inner: T, original_id: LocId) -> (r: Self)
        ensures
            r.inner == inner,
            r.original_id == original_id,
    {
        Safe { original_id, inner, phantom: PhantomData }
    }
}

/// A token consumed by an operation on port `D`, which yields the state token `S`.
pub struct Coupon<D: Decimal, S> {
    pub phantom: PhantomData<(D, S)>,
}

impl<D: Decimal, S> Token for Coupon<D, S> {
    fn fresh() -> Self {
        Coupon { phantom: PhantomData }
    }
}

/// A type-level truth value: `T`, `F`, or `X` for "either".
pub trait Booly {
    spec fn spec_bool() -> Option<bool>;

    fn bool_value() -> (r: Option<bool>)
        ensures
            r == Self::spec_bool(),
    ;
}

pub struct T;

pub struct F;

pub struct X;

impl Booly for F {
    open spec fn spec_bool() -> Option<bool> {
        Some(false)
    }

    fn bool_value() -> (r: Option<bool>) {
        Some(false)
    }
}

impl Booly for T {
    open spec fn spec_bool() -> Option<bool> {
        Some(true)
    }

    fn bool_value() -> (r: Option<bool>) {
        Some(true)
    }
}

impl Booly for X {
    open spec fn spec_bool() -> Option<bool> {
        None
    }

    fn bool_value() -> (r: Option<bool>) {
        None
    }
}

/// Whether a fixed value `b` (if any) agrees with the bit `actual`.
pub open spec fn agrees(b: Option<bool>, actual: bool) -> bool {
    match b {
        Some(v) => v == actual,
        None => true,
    }
}

/// A type-level description of memory, checked against the memory's bits at run time.
pub trait StateCheck {
    spec fn spec_explains(against: &BitSet) -> bool;

    fn explains_state(against: &BitSet) -> (r: bool)
        ensures
            r == Self::spec_explains(against),
    ;
}

impl<A: Booly, B: Booly> StateCheck for (A, B) {
    open spec fn spec_explains(against: &BitSet) -> bool {
        agrees(A::spec_bool(), against.has(0)) && agrees(B::spec_bool(), against.has(1))
    }

    fn explains_state(x: &BitSet) -> (r: bool) {
        let a_ok = match A::bool_value() {
            Some(b) => b == x.test(0),
            None => true,
        };
        let b_ok = match B::bool_value() {
            Some(b) => b == x.test(1),
            None => true,
        };
        a_ok && b_ok
    }
}

/// The state token for the type-level state `Q`.
pub struct State<Q> {
    pub phantom: PhantomData<Q>,
}

impl<Q> Token for State<Q> {
    fn fresh() -> Self {
        State { phantom: PhantomData }
    }
}

/// Whether a list of branches has more than one element to choose from.
pub trait MayBranch {
    fn branching() -> bool;
}

/// One branch of a run-time choice: rule `R` fires at port `P`, leaving state `S`.
pub struct Branch<R: Decimal, P: Decimal, S> {
    pub phantom: PhantomData<(R, P, S)>,
}

/// A run-time choice among the branches listed in `Q`, made from the port that fired and
/// the memory it left.
pub struct Discerned2<'a, Q> {
    pub data: Option<(LocId, &'a BitSet)>,
    pub phantom: PhantomData<Q>,
}

impl<'a, Q> Discerned2<'a, Q> {
    /// A choice that carries nothing, for the list with no branch.
    pub fn trivial() -> (r: Self)
        ensures
            r.data is None,
    {
        Self { data: None, phantom: PhantomData }
    }

    /// A choice made from the port `loc_id` that fired and the memory `bits` it left.
    pub fn discern(loc_id: LocId, bits: &'a BitSet) -> (r: Self)
        ensures
            r.data == Some((loc_id, bits)),
    {
        Self { data: Some((loc_id, bits)), phantom: PhantomData }
    }
}

impl<'a> Discerned2<'a, ()> {
    /// The empty list: nothing to match.
    pub fn match_nil(self) -> () {
        ()
    }
}

impl<'a> MayBranch for Discerned2<'a, ()> {
    /// The empty list offers no choice.
    fn branching() -> (r: bool)
        ensures
            !r,
    {
        false
    }
}

impl<'a, R: Decimal, P: Decimal, S: StateCheck> Discerned2<'a, (Branch<R, P, S>, ())> {
    /// The only branch of a one-element list.
    pub fn match_singleton(self) -> Coupon<P, State<S>> {
        Coupon::fresh()
    }
}

impl<'a, R: Decimal, P: Decimal, S> MayBranch for Discerned2<'a, (Branch<R, P, S>, ())> {
    /// A one-element list offers no choice.
    fn branching() -> (r: bool)
        ensures
            !r,
    {
        false
    }
}

impl<'a, R: Decimal, P: Decimal, S: StateCheck, N1, N2> Discerned2<'a, (Branch<R, P, S>, (N1, N2))> {
    /// The first branch, when the port that fired is `P` and the memory fits `S`; else
    /// the choice among the remaining branches.
    pub fn match_head(self) -> (r: Result<Coupon<P, State<S>>, Discerned2<'a, (N1, N2)>>)
        requires
            self.data is Some,
            P::spec_n() <= usize::MAX,
        ensures
            r is Ok <==> (P::spec_n() == self.data.unwrap().0 && S::spec_explains(self.data.unwrap().1)),
            r matches Err(rest) ==> rest.data == self.data,
    {
        let d = self.data.unwrap();
        if P::n() == d.0 && S::explains_state(d.1) {
            Ok(Coupon::fresh())
        } else {
            Err(Discerned2 { data: self.data, phantom: PhantomData })
        }
    }
}

impl<'a, R: Decimal, P: Decimal, S, N1, N2> MayBranch for Discerned2<'a, (Branch<R, P, S>, (N1, N2))> {
    /// A list of two or more branches offers a choice.
    fn branching() -> (r: bool)
        ensures
            r,
    {
        true
    }
}

} // verus!
