//! States whose branches are chosen at run time by a deliberator: a state token is
//! collapsed into a coupon for one port, and spending the coupon there yields the next
//! state token.
use crate::tokens::decimal::{E0, E1};
use std::marker::PhantomData;
use vstd::prelude::*;

verus! {

/// Spent at port `P` of environment `E`, it yields the token of state `S`.
pub struct Coupon<E, P, S> {
    pub phantom: PhantomData<(E, P, S)>,
}

impl<E, P, S> Coupon<E, P, S> {
    pub fn fresh() -> Self {
        Self { phantom: PhantomData }
    }
}

/// The token of state `S` of environment `E`.
pub struct State<E, S> {
    pub phantom: PhantomData<(E, S)>,
}

impl<E, S> State<E, S> {
    pub fn fresh() -> Self {
        Self { phantom: PhantomData }
    }
}

/// The raw end of a port: it keeps what was put into it, in order.
pub struct Putter<D> {
    pub sent: Vec<D>,
}

impl<D> Putter<D> {
    pub fn new() -> (r: Self)
        ensures
            r.sent@ == Seq::<D>::empty(),
    {
        Putter { sent: Vec::new() }
    }

    pub fn put(&mut self, datum: D)
        ensures
            final(self).sent@ == old(self).sent@.push(datum),
    {
        self.sent.push(datum);
    }
}

/// Port `P` of environment `E`, carrying data of type `D`.
pub struct Port<E, P, D> {
    pub raw_port: Putter<D>,
    pub phantom: PhantomData<(E, P)>,
}

impl<E, P, D> Port<E, P, D> {
    pub fn new(raw_port: Putter<D>) -> (r: Self)
        ensures
            r.raw_port == raw_port,
    {
        Self { phantom: PhantomData, raw_port }
    }

    /// Spends a coupon for this port on `datum`, and yields the coupon's state token.
    pub fn put<N>(&mut self, datum: D, coupon: Coupon<E, P, N>) -> (r: State<E, N>)
        ensures
            final(self).raw_port.sent@ == old(self).raw_port.sent@.push(datum),
    {
        self.raw_port.put(datum);
        State::fresh()
    }
}

/// The decision of a deliberator: the port that acts and the state that follows.
#[derive(Debug, Clone, Copy, PartialEq, Eq, Structural)]
pub struct RuntimeDeliberation {
    pub port: u32,
    pub new_state: u32,
}

/// Chooses, at run time, among the branches that a state offers.
pub trait Deliberator: Sized {
    /// What the deliberator decides.
    spec fn decision(&self) -> RuntimeDeliberation;

    fn deliberate(&mut self) -> (r: RuntimeDeliberation)
        ensures
            r == old(self).decision(),
            *final(self) == *old(self),
    ;
}

/// A state whose branches are read from a deliberation.
pub trait HasBranches {
    type Branches;

    /// The branch a deliberation names, if the state offers it.
    spec fn spec_branch(r: RuntimeDeliberation) -> Option<Self::Branches>;

    /// The state's only branch, where it has just one.
    spec fn spec_only() -> Option<Self::Branches>;

    fn branch(r: RuntimeDeliberation) -> (b: Option<Self::Branches>)
        ensures
            b == Self::spec_branch(r),
    ;

    fn only() -> (b: Option<Self::Branches>)
        ensures
            b == Self::spec_only(),
    ;
}

impl<E, N> State<E, N> where State<E, N>: HasBranches {
    /// The branch that the state takes: its only one, or else the one the deliberator
    /// names (`None` where the state does not offer it).
    pub fn advance<D: Deliberator>(self, deliberator: &mut D) -> (r: Option<
        <State<E, N> as HasBranches>::Branches,
    >)
        ensures
            r == (match <State<E, N> as HasBranches>::spec_only() {
                Some(b) => Some(b),
                None => <State<E, N> as HasBranches>::spec_branch(old(deliberator).decision()),
            }),
            *final(deliberator) == *old(deliberator),
    {
        match <State<E, N> as HasBranches>::only() {
            Some(b) => Some(b),
            None => {
                let d = deliberator.deliberate();
                <State<E, N> as HasBranches>::branch(d)
            },
        }
    }
}

/// The name by which the tokens of [`Env`] are typed.
pub struct TwoPorts;

/// The environment of an atomic component with two ports.
pub struct Env {
    pub port0: Port<TwoPorts, E0, u32>,
    pub port1: Port<TwoPorts, E1, u32>,
}

/// The branches of state 0: act at port 0 and move to state 1, or act at port 1 and
/// stay.
pub enum Opts0 {
    P0S1(Coupon<TwoPorts, E0, E1>),
    P1S0(Coupon<TwoPorts, E1, E0>),
}

/// The branch of state 1: act at port 1 and move to state 0.
pub enum Opts1 {
    P1S0(Coupon<TwoPorts, E1, E0>),
}

impl HasBranches for State<TwoPorts, E0> {
    type Branches = Opts0;

    open spec fn spec_branch(r: RuntimeDeliberation) -> Option<Opts0> {
        if r.port == 0 && r.new_state == 1 {
            Some(Opts0::P0S1(Coupon { phantom: PhantomData }))
        } else if r.port == 1 && r.new_state == 0 {
            Some(Opts0::P1S0(Coupon { phantom: PhantomData }))
        } else {
            None
        }
    }

    open spec fn spec_only() -> Option<Opts0> {
        None
    }

    fn branch(r: RuntimeDeliberation) -> (b: Option<Opts0>) {
        if r.port == 0 && r.new_state == 1 {
            Some(Opts0::P0S1(Coupon { phantom: PhantomData }))
        } else if r.port == 1 && r.new_state == 0 {
            Some(Opts0::P1S0(Coupon { phantom: PhantomData }))
        } else {
            None
        }
    }

    fn only() -> (b: Option<Opts0>) {
        None
    }
}

impl HasBranches for State<TwoPorts, E1> {
    type Branches = Opts1;

    open spec fn spec_branch(r: RuntimeDeliberation) -> Option<Opts1> {
        if r.port == 1 && r.new_state == 0 {
            Some(Opts1::P1S0(Coupon { phantom: PhantomData }))
        } else {
            None
        }
    }

    open spec fn spec_only() -> Option<Opts1> {
        Some(Opts1::P1S0(Coupon { phantom: PhantomData }))
    }

    fn branch(r: RuntimeDeliberation) -> (b: Option<Opts1>) {
        if r.port == 1 && r.new_state == 0 {
            Some(Opts1::P1S0(Coupon { phantom: PhantomData }))
        } else {
            None
        }
    }

    fn only() -> (b: Option<Opts1>) {
        Some(Opts1::P1S0(Coupon { phantom: PhantomData }))
    }
}

impl Deliberator for Env {
    /// This environment always acts at port 0 and moves to state 1.
    open spec fn decision(&self) -> RuntimeDeliberation {
        RuntimeDeliberation { port: 0, new_state: 1 }
    }

    fn deliberate(&mut self) -> (r: RuntimeDeliberation) {
        RuntimeDeliberation { port: 0, new_state: 1 }
    }
}

/// `rounds` rounds of the component: from state 0 it takes the branch its environment
/// chooses (port 0 with 5, then port 1 with 2; or port 1 with 3), back to state 0.
pub fn atomic(env: &mut Env, s0: State<TwoPorts, E0>, rounds: usize) -> (r: State<TwoPorts, E0>)
    ensures
        final(env).port0.raw_port.sent@ == old(env).port0.raw_port.sent@ + Seq::new(rounds as nat, |i: int| 5u32),
        final(env).port1.raw_port.sent@ == old(env).port1.raw_port.sent@ + Seq::new(rounds as nat, |i: int| 2u32),
{
    let mut s0 = s0;
    let mut i: usize = 0;
    while i < rounds
        invariant
            i <= rounds,
            env.port0.raw_port.sent@ == old(env).port0.raw_port.sent@ + Seq::new(i as nat, |j: int| 5u32),
            env.port1.raw_port.sent@ == old(env).port1.raw_port.sent@ + Seq::new(i as nat, |j: int| 2u32),
        decreases rounds - i,
    {
        let ghost p0 = env.port0.raw_port.sent@;
        let ghost p1 = env.port1.raw_port.sent@;
        s0 = match s0.advance(env) {
            Some(Opts0::P0S1(c)) => {
                let s1 = env.port0.put(5, c);
                match s1.advance(env) {
                    Some(Opts1::P1S0(c)) => env.port1.put(2, c),
                    None => {
                        assert(false);
                        State::fresh()
                    },
                }
            },
            Some(Opts0::P1S0(c)) => {
                assert(false);
                env.port1.put(3, c)
            },
            None => {
                assert(false);
                State::fresh()
            },
        };
        proof {
            assert(env.port0.raw_port.sent@ =~= old(env).port0.raw_port.sent@ + Seq::new((i + 1) as nat, |j: int| 5u32));
            assert(env.port1.raw_port.sent@ =~= old(env).port1.raw_port.sent@ + Seq::new((i + 1) as nat, |j: int| 2u32));
        }
        i += 1;
    }
    s0
}

} // verus!
