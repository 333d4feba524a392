//! Specificity order of state sets, and merging of rules that it makes possible.
use crate::rba_preprocess::{differ_at_most_once, differs_at, is_split_merge, lemma_split_merge_unique, Rule, StateSet};
use crate::val::{val_order, Val};
use std::cmp::Ordering;
use vstd::prelude::*;
use vstd::std_specs::cmp::PartialOrdSpecImpl;

verus! {

/// Specificity order of two state sets over their first `k` positions: equal positions
/// do not matter; the others must all lean the same way.
pub open spec fn state_order_upto(a: StateSet, b: StateSet, k: int) -> Option<Ordering>
    decreases k,
{
    if k <= 0 {
        Some(Ordering::Equal)
    } else {
        match state_order_upto(a, b, k - 1) {
            None => None,
            Some(o) => match val_order(a.predicate@[k - 1], b.predicate@[k - 1]) {
                None => None,
                Some(Ordering::Equal) => Some(o),
                Some(x) => if matches!(o, Ordering::Equal) {
                    Some(x)
                } else if o != x {
                    None
                } else {
                    Some(o)
                },
            },
        }
    }
}

/// Once two positions disagree, no further position reconciles them.
proof fn lemma_upto_none(a: StateSet, b: StateSet, k: int, m: int)
    requires
        0 <= k <= m,
        state_order_upto(a, b, k) is None,
    ensures
        state_order_upto(a, b, m) is None,
    decreases m,
{
    if k < m {
        lemma_upto_none(a, b, k, m - 1);
    }
}

pub open spec fn state_order(a: StateSet, b: StateSet) -> Option<Ordering> {
    state_order_upto(a, b, 3)
}

fn same_order(a: Ordering, b: Ordering) -> (r: bool)
    ensures
        r == (a == b),
{
    match (a, b) {
        (Ordering::Less, Ordering::Less) => true,
        (Ordering::Equal, Ordering::Equal) => true,
        (Ordering::Greater, Ordering::Greater) => true,
        _ => false,
    }
}

impl PartialOrd for StateSet {
    fn partial_cmp(&self, rhs: &Self) -> (r: Option<Ordering>) {
        let mut o = Ordering::Equal;
        let mut i: usize = 0;
        let ghost mut k: int = 0;
        while i < 3
            invariant
                i <= 3,
                k == i,
                state_order_upto(*self, *rhs, k) == Some(o),
            decreases 3 - i,
        {
            let a = self.predicate[i];
            let b = rhs.predicate[i];
            assert(a == self.predicate@[k] && b == rhs.predicate@[k]);
            match a.partial_cmp(&b) {
                None => {
                    proof {
                        lemma_upto_none(*self, *rhs, k + 1, 3);
                    }
                    return None;
                },
                Some(Ordering::Less) => {
                    if matches!(o, Ordering::Equal) {
                        o = Ordering::Less;
                    } else if !matches!(o, Ordering::Less) {
                        proof {
                            lemma_upto_none(*self, *rhs, k + 1, 3);
                        }
                        return None;
                    }
                },
                Some(Ordering::Greater) => {
                    if matches!(o, Ordering::Equal) {
                        o = Ordering::Greater;
                    } else if !matches!(o, Ordering::Greater) {
                        proof {
                            lemma_upto_none(*self, *rhs, k + 1, 3);
                        }
                        return None;
                    }
                },
                Some(Ordering::Equal) => {},
            }
            i += 1;
            proof {
                k = k + 1;
            }
        }
        Some(o)
    }
}

impl PartialOrdSpecImpl for StateSet {
    open spec fn obeys_partial_cmp_spec() -> bool {
        true
    }

    open spec fn partial_cmp_spec(&self, other: &Self) -> Option<Ordering> {
        state_order(*self, *other)
    }
}

/// Whether two rules can be replaced by one: they act at the same port, and one subsumes
/// the other, or their guards split a common guard in one position and their assignments
/// agree.
pub open spec fn can_merge(a: Rule, b: Rule) -> bool {
    let g = state_order(a.guard, b.guard);
    let o = state_order(a.assign, b.assign);
    &&& a.port == b.port
    &&& {
        ||| (g is Some && o is Some && (o == Some(Ordering::Equal) || o == g))
        ||| (g is None && o == Some(Ordering::Equal) && differ_at_most_once(a.guard, b.guard))
    }
}

/// The single rule that replaces two rules that can merge.
pub open spec fn merged(a: Rule, b: Rule) -> Rule {
    let g = state_order(a.guard, b.guard);
    if g == Some(Ordering::Equal) || g == Some(Ordering::Less) {
        a
    } else if g == Some(Ordering::Greater) {
        b
    } else {
        choose|m: Rule| is_split_merge(m, a, b)
    }
}

/// `o` with less and greater exchanged.
pub open spec fn reversed(o: Option<Ordering>) -> Option<Ordering> {
    match o {
        Some(Ordering::Less) => Some(Ordering::Greater),
        Some(Ordering::Greater) => Some(Ordering::Less),
        _ => o,
    }
}

proof fn lemma_upto_laws(a: StateSet, b: StateSet, k: int)
    requires
        0 <= k <= 3,
    ensures
        state_order_upto(b, a, k) == reversed(state_order_upto(a, b, k)),
        state_order_upto(a, a, k) == Some(Ordering::Equal),
        state_order_upto(a, b, k) == Some(Ordering::Equal) ==> forall|i: int|
            0 <= i < k ==> #[trigger] a.predicate@[i] == b.predicate@[i],
    decreases k,
{
    if k > 0 {
        lemma_upto_laws(a, b, k - 1);
    }
}

/// Specificity of state sets is a partial order: every set is equal to itself, only
/// equal sets compare equal, and comparing the other way round exchanges less and
/// greater (and keeps incomparable sets incomparable).
pub proof fn law_state_order(a: StateSet, b: StateSet)
    ensures
        state_order(a, a) == Some(Ordering::Equal),
        state_order(a, b) == Some(Ordering::Equal) ==> a == b,
        state_order(b, a) == reversed(state_order(a, b)),
{
    lemma_upto_laws(a, b, 3);
    if state_order(a, b) == Some(Ordering::Equal) {
        assert(a.predicate =~= b.predicate);
    }
}

/// Whether two rules can merge does not depend on their order.
pub proof fn law_can_merge_symmetric(a: Rule, b: Rule)
    ensures
        can_merge(a, b) == can_merge(b, a),
{
    law_state_order(a.guard, b.guard);
    law_state_order(a.assign, b.assign);
    assert forall|i: int| 0 <= i < 3 implies #[trigger] differs_at(a.guard, b.guard, i) == differs_at(
        b.guard,
        a.guard,
        i,
    ) by {}
    if differ_at_most_once(a.guard, b.guard) {
        assert forall|i: int, j: int| 0 <= i < j < 3 implies !(#[trigger] differs_at(b.guard, a.guard, i)
            && #[trigger] differs_at(b.guard, a.guard, j)) by {
            assert(!(differs_at(a.guard, b.guard, i) && differs_at(a.guard, b.guard, j)));
        }
    }
    if differ_at_most_once(b.guard, a.guard) {
        assert forall|i: int, j: int| 0 <= i < j < 3 implies !(#[trigger] differs_at(a.guard, b.guard, i)
            && #[trigger] differs_at(a.guard, b.guard, j)) by {
            assert(!(differs_at(b.guard, a.guard, i) && differs_at(b.guard, a.guard, j)));
        }
    }
}

impl Rule {
    /// A single rule standing for both `self` and `other`, if there is one. Rules at
    /// different ports never merge. Otherwise: the more general of the two when one
    /// subsumes the other (guards ordered, assignments equal or ordered the same way), or,
    /// when the guards conflict in exactly one position and the assignments are equal,
    /// the rule whose guard leaves that position open.
    pub fn try_merge(&self, other: &Self) -> (r: Option<Rule>)
        ensures
            self.port != other.port ==> r is None,
            self.port == other.port ==> ({
                let g = state_order(self.guard, other.guard);
                let a = state_order(self.assign, other.assign);
                if g is Some && a is Some && (a == Some(Ordering::Equal) || a == g) && (g == Some(
                    Ordering::Equal,
                ) || g == Some(Ordering::Less)) {
                    r == Some(*self)
                } else if g is Some && a is Some && (a == Some(Ordering::Equal) || a == g) && g == Some(
                    Ordering::Greater,
                ) {
                    r == Some(*other)
                } else if g is None && a == Some(Ordering::Equal) {
                    if differ_at_most_once(self.guard, other.guard) {
                        r matches Some(m) && is_split_merge(m, *self, *other)
                    } else {
                        r is None
                    }
                } else {
                    r is None
                }
            }),
            r is Some <==> can_merge(*self, *other),
            r matches Some(m) ==> m == merged(*self, *other),
    {
        let same_port = match (self.port, other.port) {
            (None, None) => true,
            (Some(p), Some(q)) => p == q,
            _ => false,
        };
        if !same_port {
            return None;
        }
        let g_cmp = self.guard.partial_cmp(&other.guard);
        let a_cmp = self.assign.partial_cmp(&other.assign);
        match (g_cmp, a_cmp) {
            (Some(g), Some(a)) => {
                let a_ok = matches!(a, Ordering::Equal) || same_order(a, g);
                if a_ok && (matches!(g, Ordering::Equal) || matches!(g, Ordering::Less)) {
                    Some(Rule { guard: self.guard, port: self.port, assign: self.assign })
                } else if a_ok && matches!(g, Ordering::Greater) {
                    Some(Rule { guard: other.guard, port: other.port, assign: other.assign })
                } else {
                    None
                }
            },
            (None, Some(Ordering::Equal)) => {
                let r = self.split_merge(other);
                proof {
                    if let Some(m) = r {
                        let c = choose|c: Rule| is_split_merge(c, *self, *other);
                        lemma_split_merge_unique(c, m, *self, *other);
                    }
                }
                r
            },
            _ => None,
        }
    }
}

} // verus!
