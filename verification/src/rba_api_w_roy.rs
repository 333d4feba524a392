//! A typed interface to a rule-based automaton: its state lives in the type of a token,
//! each state lists the coupons it offers, and acting at a port with a coupon yields the
//! next state's token.
use crate::tokens::decimal::{D0, D1, D2, D3, D4, D5, D6, D7, D8, D9, E0, E1};
use std::marker::PhantomData;
use vstd::prelude::*;

verus! {

/// A type that holds no data, so that a value of it can be made without context.
pub trait Token: Sized {
    fn fresh() -> Self;
}

impl Token for () {
    fn fresh() -> Self {
        ()
    }
}

impl<T: Token> Token for D0<T> {
    fn fresh() -> Self {
        D0 { phantom: PhantomData }
    }
}

impl<T: Token> Token for D1<T> {
    fn fresh() -> Self {
        D1 { phantom: PhantomData }
    }
}

impl<T: Token> Token for D2<T> {
    fn fresh() -> Self {
        D2 { phantom: PhantomData }
    }
}

impl<T: Token> Token for D3<T> {
    fn fresh() -> Self {
        D3 { phantom: PhantomData }
    }
}

impl<T: Token> Token for D4<T> {
    fn fresh() -> Self {
        D4 { phantom: PhantomData }
    }
}

impl<T: Token> Token for D5<T> {
    fn fresh() -> Self {
        D5 { phantom: PhantomData }
    }
}

impl<T: Token> Token for D6<T> {
    fn fresh() -> Self {
        D6 { phantom: PhantomData }
    }
}

impl<T: Token> Token for D7<T> {
    fn fresh() -> Self {
        D7 { phantom: PhantomData }
    }
}

impl<T: Token> Token for D8<T> {
    fn fresh() -> Self {
        D8 { phantom: PhantomData }
    }
}

impl<T: Token> Token for D9<T> {
    fn fresh() -> Self {
        D9 { phantom: PhantomData }
    }
}

/// Consumed by an action at port `P`; the action yields the state token `S`.
pub struct Coupon<P: Token, S: Token> {
    pub phantom: PhantomData<(P, S)>,
}

impl<P: Token, S: Token> Token for Coupon<P, S> {
    fn fresh() -> Self {
        Coupon { phantom: PhantomData }
    }
}

/// The port numbered by `P`.
pub struct Port<P: Token> {
    pub phantom: PhantomData<P>,
}

impl<P: Token> Port<P> {
    pub fn new() -> Self {
        Port { phantom: PhantomData }
    }

    /// Acts at this port, spending a coupon for it, and yields the state the coupon names.
    pub fn act<S: Token>(&mut self, coupon: Coupon<P, S>) -> S {
        S::fresh()
    }
}

/// A state variable known to be false.
pub struct F;

/// A state variable known to be true.
pub struct T;

/// A state variable that may be either.
pub struct X;

impl Token for F {
    fn fresh() -> Self {
        F
    }
}

impl Token for T {
    fn fresh() -> Self {
        T
    }
}

impl Token for X {
    fn fresh() -> Self {
        X
    }
}

/// The three-valued state variables.
pub trait Tern: Token {}

impl Tern for T {}

impl Tern for F {}

impl Tern for X {}

/// `F` or `X`.
pub trait FX: Tern {}

impl FX for F {}

impl FX for X {}

/// `T` or `X`.
pub trait TX: Tern {}

impl TX for T {}

impl TX for X {}

/// `T` or `F`.
pub trait TF: Tern {}

impl TF for T {}

impl TF for F {}

/// The least specific variable value that covers both of a pair.
pub trait UnifyTern {
    type Out: Tern;
}

impl UnifyTern for (F, X) {
    type Out = X;
}

impl<A: FX> UnifyTern for (T, A) {
    type Out = X;
}

impl UnifyTern for (X, F) {
    type Out = X;
}

impl UnifyTern for (X, X) {
    type Out = X;
}

impl UnifyTern for (F, T) {
    type Out = X;
}

impl UnifyTern for (T, T) {
    type Out = T;
}

impl UnifyTern for (F, F) {
    type Out = F;
}

/// The state covering both states of a pair.
pub trait UnifyState {
    type Out: Token;
}

impl<A1: Tern, A2: Tern> UnifyState for (State<A1>, State<A2>) where (A1, A2): UnifyTern {
    type Out = State<<(A1, A2) as UnifyTern>::Out>;
}

/// The token of the automaton's state `A`.
pub struct State<A: Tern> {
    pub phantom: PhantomData<A>,
}

impl<A: Tern> Token for State<A> {
    fn fresh() -> Self {
        State { phantom: PhantomData }
    }
}

impl<A: TF> State<A> {
    /// Forgets the value of the state variable.
    pub fn weaken_a(self) -> State<X> {
        State::fresh()
    }
}

/// A set of options that offers exactly one coupon: for port `PortNum`, yielding `State`.
pub trait KnownCoupon {
    type PortNum: Token;

    type State: Token;
}

/// A state whose options can be taken: what it offers is `Opts`.
pub trait Advance: Token {
    type Opts: Token;

    fn advance(self) -> Self::Opts {
        Self::Opts::fresh()
    }
}

/// A state that offers a single coupon, which can be taken without a choice.
pub trait Knowable: Advance {
    type CouponType: Token;

    fn only_coupon(self) -> Self::CouponType {
        Self::CouponType::fresh()
    }
}

/// Options of a state offering both rule 1 (at port 0) and rule 2 (at port 1).
pub enum R1R2<S0: Token, S1: Token> {
    R1(Coupon<E0, S0>),
    R2(Coupon<E1, S1>),
}

impl<S0: Token, S1: Token> Token for R1R2<S0, S1> {
    fn fresh() -> Self {
        R1R2::R1(Coupon::fresh())
    }
}

/// Options of a state offering only rule 1, at port 0.
pub enum R1<S0: Token> {
    R1(Coupon<E0, S0>),
}

impl<S0: Token> Token for R1<S0> {
    fn fresh() -> Self {
        R1::R1(Coupon::fresh())
    }
}

impl<S0: Token> KnownCoupon for R1<S0> {
    type PortNum = E0;

    type State = S0;
}

/// Options of a state offering only rule 2, at port 1.
pub enum R2<S1: Token> {
    R2(Coupon<E1, S1>),
}

impl<S1: Token> Token for R2<S1> {
    fn fresh() -> Self {
        R2::R2(Coupon::fresh())
    }
}

impl<S1: Token> KnownCoupon for R2<S1> {
    type PortNum = E1;

    type State = S1;
}

impl Advance for State<X> {
    type Opts = R1R2<X, State<T>>;
}

impl Advance for State<F> {
    type Opts = R1<State<T>>;
}

impl Advance for State<T> {
    type Opts = R2<State<F>>;
}

impl Knowable for State<F> {
    type CouponType = Coupon<E0, State<T>>;
}

impl Knowable for State<T> {
    type CouponType = Coupon<E1, State<F>>;
}

/// Runs the automaton's user for `rounds` rounds from state `F`: act at port 0 with the
/// only coupon, then take the option that state `T` offers and act at port 1.
pub fn atomic(f: State<F>, p0: &mut Port<E0>, p1: &mut Port<E1>, rounds: usize) -> State<F> {
    let mut f = f;
    let mut i: usize = 0;
    while i < rounds
        decreases rounds - i,
    {
        let t: State<T> = p0.act(f.only_coupon());
        f = match t.advance() {
            R2::R2(coupon) => p1.act(coupon),
        };
        i += 1;
    }
    f
}

} // verus!
