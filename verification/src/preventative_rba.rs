//! Memory of two variables in the type of a token; a port accepts a payment that names
//! the memory it leaves.
use std::marker::PhantomData;
use vstd::prelude::*;

verus! {

/// Name of a port.
pub struct N0;

/// A variable whose value is not known.
pub struct Unk;

/// A state variable value.
pub trait Var: Sized {}

/// A variable known to be true.
pub struct Tru;

impl Var for Tru {}

/// A variable known to be false.
pub struct Fal;

impl Var for Fal {}

/// Spent at port `N`, it leaves the memory `Z`.
pub struct Payment<N, Z> {
    pub phantom: PhantomData<(N, Z)>,
}

impl<N, Z> Payment<N, Z> {
    pub fn fresh() -> Self {
        Self { phantom: PhantomData }
    }
}

/// Two memory variables, with what is known of each.
pub struct Mem2<K1, K2> {
    pub phantom: PhantomData<(K1, K2)>,
}

impl<K1, K2> Mem2<K1, K2> {
    pub fn fresh() -> Self {
        Self { phantom: PhantomData }
    }

    /// Forgets the first variable.
    pub fn weaken_1(self) -> Mem2<Unk, K2> {
        Mem2::fresh()
    }

    /// Forgets the second variable.
    pub fn weaken_2(self) -> Mem2<K1, Unk> {
        Mem2::fresh()
    }
}

/// Port `N`, taking data of type `T`.
pub struct Porty<N, T> {
    pub phantom: PhantomData<(N, T)>,
    /// How many data the port took.
    pub taken: usize,
}

impl<N, T> Porty<N, T> {
    pub fn fresh() -> (r: Self)
        ensures
            r.taken == 0,
    {
        Self { phantom: PhantomData, taken: 0 }
    }

    /// Takes `datum`, spending a payment, and yields the memory the payment names.
    pub fn put<K1, K2>(&mut self, payment: Payment<N, Mem2<K1, K2>>, datum: T) -> (r: Mem2<K1, K2>)
        requires
            old(self).taken < usize::MAX,
        ensures
            final(self).taken == old(self).taken + 1,
    {
        self.taken = self.taken + 1;
        Mem2::fresh()
    }
}

/// What memory `(Unk, Unk)` allows: put at port 0, leaving `(Fal, Fal)`.
pub enum OptsVuu {
    P0Vff(Payment<N0, Mem2<Fal, Fal>>),
}

impl OptsVuu {
    pub fn advance<K1, K2>(req: Mem2<K1, K2>) -> Self {
        OptsVuu::P0Vff(Payment::fresh())
    }
}

/// What memory `(_, Fal)` allows: put at port 0, leaving `(Tru, Unk)`.
pub enum OptsVuf {
    P0Vtu(Payment<N0, Mem2<Tru, Unk>>),
}

impl OptsVuf {
    pub fn advance<V1>(req: Mem2<V1, Fal>) -> Self {
        OptsVuf::P0Vtu(Payment::fresh())
    }
}

/// The component: from `(Tru, Unk)`, forget the first variable, then alternate the two
/// puts that the memory allows, for `rounds` rounds.
pub fn atomic(start: Mem2<Tru, Unk>, porty: &mut Porty<N0, u32>, rounds: usize) -> (r: Mem2<Unk, Unk>)
    requires
        old(porty).taken + 2 * rounds <= usize::MAX,
    ensures
        final(porty).taken == old(porty).taken + 2 * rounds,
{
    let mut uu = start.weaken_1();
    let mut i: usize = 0;
    while i < rounds
        invariant
            i <= rounds,
            porty.taken == old(porty).taken + 2 * i,
            old(porty).taken + 2 * rounds <= usize::MAX,
        decreases rounds - i,
    {
        let ff = match OptsVuu::advance(uu) {
            OptsVuu::P0Vff(payment) => porty.put(payment, 1),
        };
        uu = match OptsVuf::advance(ff) {
            OptsVuf::P0Vtu(payment) => porty.put(payment, 1).weaken_1(),
        };
        i += 1;
    }
    uu
}

} // verus!
