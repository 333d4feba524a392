//! Three-valued state variables, ordered by specificity.
use std::cmp::Ordering;
use vstd::prelude::*;
use vstd::std_specs::cmp::PartialOrdSpecImpl;

verus! {

/// A state variable's value: true, false, or unspecified.
#[derive(Debug, Copy, Clone, Eq, PartialEq, Hash, Structural)]
pub enum Val {
    T,
    F,
    X,
}

/// Specificity order: `X` is below `T` and `F`, which are not comparable.
pub open spec fn val_order(a: Val, b: Val) -> Option<Ordering> {
    if a == b {
        Some(Ordering::Equal)
    } else if a == Val::X {
        Some(Ordering::Less)
    } else if b == Val::X {
        Some(Ordering::Greater)
    } else {
        None
    }
}

impl PartialOrd for Val {
    fn partial_cmp(&self, other: &Self) -> (r: Option<Ordering>) {
        if *self == *other {
            Some(Ordering::Equal)
        } else if *self == Val::X {
            Some(Ordering::Less)
        } else if *other == Val::X {
            Some(Ordering::Greater)
        } else {
            None
        }
    }
}

impl PartialOrdSpecImpl for Val {
    open spec fn obeys_partial_cmp_spec() -> bool {
        true
    }

    open spec fn partial_cmp_spec(&self, other: &Self) -> Option<Ordering> {
        val_order(*self, *other)
    }
}

impl Val {
    /// Whether the value is unspecified.
    pub fn generic(self) -> (r: bool)
        ensures
            r == (self == Val::X),
    {
        self == Val::X
    }

    /// Whether the value is `T` or `F`.
    pub fn specific(self) -> (r: bool)
        ensures
            r == (self != Val::X),
    {
        !self.generic()
    }

    /// Whether the two values are incomparable (one `T`, the other `F`).
    pub fn mismatches(self, other: Self) -> (r: bool)
        ensures
            r == (self != other && self != Val::X && other != Val::X),
    {
        self.partial_cmp(&other).is_none()
    }

    /// Whether `self` is strictly less specific than `other`.
    pub fn less_specific(self, other: Self) -> (r: bool)
        ensures
            r == (self == Val::X && other != Val::X),
    {
        match self.partial_cmp(&other) {
            Some(Ordering::Less) => true,
            _ => false,
        }
    }
}

/// Specificity is a partial order: reflexive, antisymmetric and transitive, with `X` below
/// every value and `T`, `F` incomparable.
pub proof fn law_val_order(a: Val, b: Val, c: Val)
    ensures
        val_order(a, a) == Some(Ordering::Equal),
        val_order(a, b) == Some(Ordering::Less) <==> val_order(b, a) == Some(Ordering::Greater),
        val_order(a, b) is None <==> val_order(b, a) is None,
        (val_order(a, b) == Some(Ordering::Less) && val_order(b, c) == Some(Ordering::Less)) ==> false,
        (val_order(a, b) == Some(Ordering::Less) && val_order(b, c) == Some(Ordering::Equal)) ==> val_order(a, c)
            == Some(Ordering::Less),
        a != Val::X ==> val_order(Val::X, a) == Some(Ordering::Less),
        val_order(Val::T, Val::F) is None,
{
}

} // verus!
