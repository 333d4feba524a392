//! An atomic component as a game of tokens: each state offers coupons, a coupon spent at
//! its port yields a receipt, and a receipt lets the component move to the next state.
use std::marker::PhantomData;
use vstd::prelude::*;

verus! {

/// Spent at port `P` of environment `E`, it yields a `Receipt<E>`.
pub struct Coupon<E, P> {
    pub phantom: PhantomData<(E, P)>,
}

impl<E, P> Coupon<E, P> {
    pub fn fresh() -> Self {
        Self { phantom: PhantomData }
    }
}

/// Proof that a port of environment `E` was acted on.
pub struct Receipt<E> {
    pub phantom: PhantomData<E>,
}

impl<E> Receipt<E> {
    pub fn fresh() -> Self {
        Self { phantom: PhantomData }
    }
}

/// The token for state `S` of environment `E`.
pub struct State<E, S> {
    pub phantom: PhantomData<(E, S)>,
}

impl<E, S> State<E, S> {
    pub fn fresh() -> Self {
        Self { phantom: PhantomData }
    }
}

/// Names of ports and states.
pub struct N0;

pub struct N1;

pub struct N2;

pub struct N3;

pub struct N4;

pub struct N5;

pub struct N6;

pub struct N7;

/// A port that data can be put into; implemented by whoever supplies the ports.
pub trait RawPort<D> {
    fn put(&mut self, datum: D);
}

/// Port `P` of environment `E`, carrying data of type `D` into `R`.
pub struct Port<E, P, D, R: RawPort<D>> {
    pub raw_port: R,
    pub phantom: PhantomData<(E, P, D)>,
}

impl<E, P, D, R: RawPort<D>> Port<E, P, D, R> {
    pub fn new(raw_port: R) -> (r: Self)
        ensures
            r.raw_port == raw_port,
    {
        Self { phantom: PhantomData, raw_port }
    }

    /// Spends a coupon for this port and yields the receipt; the port itself is left as
    /// it was.
    pub fn put(&mut self, datum: D, coupon: Coupon<E, P>) -> (r: Receipt<E>)
        ensures
            *final(self) == *old(self),
    {
        Receipt::fresh()
    }
}

/// What state 0 allows: act at port 0, or stay idle.
pub enum S0i<E> {
    Port0(Coupon<E, N0>),
    Idle(Receipt<E>),
}

/// What state 1 allows: act at port 1.
pub enum S1<E> {
    Port1(Coupon<E, N1>),
}

} // verus!
