//! Rule-based port automata over three-valued state, and their simplification.
use crate::rba_order::{can_merge, merged};
pub use crate::val::Val;
use vstd::prelude::*;

verus! {

pub type PortId = u32;

/// Number of state variables.
pub const STATE_LEN: usize = 3;

/// A set of states, described by one value per variable (`X` leaves it open).
#[derive(Debug, Copy, Clone, Eq, PartialEq, Hash)]
pub struct StateSet {
    pub predicate: [Val; 3],
}

/// `a` is at least as specific as `b` everywhere and strictly more somewhere is
/// "greater"; the reverse is "less"; conflicting positions make them incomparable.
pub open spec fn spec_less_specific(a: Val, b: Val) -> bool {
    a == Val::X && b != Val::X
}

pub open spec fn spec_mismatch(a: Val, b: Val) -> bool {
    a != b && a != Val::X && b != Val::X
}

impl StateSet {
    pub open spec fn at(&self, i: int) -> Val {
        self.predicate@[i]
    }

    /// Where `self` leaves a variable open and `other` does not, take `other`'s value.
    pub fn make_specific_wrt(&mut self, other: &Self)
        ensures
            forall|i: int|
                0 <= i < 3 ==> #[trigger] final(self).at(i) == (if spec_less_specific(old(self).at(i), other.at(i)) {
                    other.at(i)
                } else {
                    old(self).at(i)
                }),
    {
        let mut i: usize = 0;
        while i < STATE_LEN
            invariant
                i <= 3,
                forall|j: int|
                    0 <= j < 3 ==> #[trigger] self.at(j) == (if j < i && spec_less_specific(old(self).at(j), other.at(j)) {
                        other.at(j)
                    } else {
                        old(self).at(j)
                    }),
            decreases 3 - i,
        {
            let s = self.predicate[i];
            let o = other.predicate[i];
            if s.less_specific(o) {
                self.predicate[i] = o;
            }
            i += 1;
        }
    }

    /// The values, to change in place.
    pub fn iter_mut(&mut self) -> (r: &mut [Val; 3])
        ensures
            *r == old(self).predicate,
            final(self).predicate == *final(r),
    {
        &mut self.predicate
    }

    /// The values, in order.
    pub fn iter(&self) -> (r: Vec<Val>)
        ensures
            r@ == self.predicate@,
    {
        let mut r: Vec<Val> = Vec::new();
        let mut i: usize = 0;
        while i < STATE_LEN
            invariant
                i <= 3,
                r@ == self.predicate@.subrange(0, i as int),
            decreases 3 - i,
        {
            r.push(self.predicate[i]);
            i += 1;
        }
        r
    }
}

/// Whether `guard` fits the state `s`: no position where both are specific and differ.
pub open spec fn guard_fits(guard: StateSet, s: StateSet) -> bool {
    forall|i: int| 0 <= i < 3 ==> !spec_mismatch(#[trigger] guard.at(i), s.at(i))
}

/// The value at position `i` after applying a rule to `s`.
pub open spec fn applied_at(g: Val, a: Val, s: Val) -> Val {
    if a != Val::X {
        a
    } else if g != Val::X {
        g
    } else {
        s
    }
}

/// Whether the two state sets differ in at most one position.
pub open spec fn differ_at_most_once(a: StateSet, b: StateSet) -> bool {
    forall|i: int, j: int| 0 <= i < j < 3 ==> !(#[trigger] differs_at(a, b, i) && #[trigger] differs_at(a, b, j))
}

/// Whether the two state sets hold different values at position `i`.
pub open spec fn differs_at(a: StateSet, b: StateSet, i: int) -> bool {
    a.predicate@[i] != b.predicate@[i]
}

/// Position `i` of `a`, left open where `b` differs from it.
pub open spec fn split_at(a: StateSet, b: StateSet, i: int) -> Val {
    if a.predicate@[i] != b.predicate@[i] {
        Val::X
    } else {
        a.predicate@[i]
    }
}

/// Whether `m` is the rule standing for two rules `a` and `b` whose guards differ in one
/// position and whose assignments are equal: `a`'s guard with that position open, `a`'s
/// port, and `a`'s assignment made at least as specific as the new guard.
pub open spec fn is_split_merge(m: Rule, a: Rule, b: Rule) -> bool {
    &&& m.port == a.port
    &&& forall|i: int| 0 <= i < 3 ==> #[trigger] m.guard.predicate@[i] == split_at(a.guard, b.guard, i)
    &&& forall|i: int|
        0 <= i < 3 ==> #[trigger] m.assign.predicate@[i] == (if a.assign.predicate@[i] == Val::X
            && split_at(a.guard, b.guard, i) != Val::X {
            split_at(a.guard, b.guard, i)
        } else {
            a.assign.predicate@[i]
        })
}

/// Guard of the composition of `a` then `b` at position `i`: where `a` neither tests
/// nor sets the variable and `b` tests it, `b`'s test.
pub open spec fn compose_guard_at(a: Rule, b: Rule, i: int) -> Val {
    if a.guard.at(i) == Val::X && a.assign.at(i) == Val::X && b.guard.at(i) != Val::X {
        b.guard.at(i)
    } else {
        a.guard.at(i)
    }
}

/// Assignment of the composition of `a` then `b` at position `i`, before it is made
/// as specific as the guard: where `b` neither tests nor sets the variable, what `a`
/// leaves there.
pub open spec fn compose_assign_at(a: Rule, b: Rule, i: int) -> Val {
    if b.guard.at(i) == Val::X && b.assign.at(i) == Val::X {
        if a.assign.at(i) != Val::X {
            a.assign.at(i)
        } else if a.guard.at(i) != Val::X {
            a.guard.at(i)
        } else {
            b.assign.at(i)
        }
    } else {
        b.assign.at(i)
    }
}

/// Whether `a` may be followed by `b`.
pub open spec fn spec_can_precede(a: Rule, b: Rule) -> bool {
    !(a.port is Some && b.port is Some) && forall|i: int|
        0 <= i < 3 ==> !spec_mismatch(#[trigger] a.assign.at(i), b.guard.at(i))
}

/// Whether `m` is the rule for `a` followed by `b`.
pub open spec fn is_composition(m: Rule, a: Rule, b: Rule) -> bool {
    &&& m.port == (if a.port is Some { a.port } else { b.port })
    &&& forall|i: int| 0 <= i < 3 ==> #[trigger] m.guard.at(i) == compose_guard_at(a, b, i)
    &&& forall|i: int|
        0 <= i < 3 ==> #[trigger] m.assign.at(i) == (if spec_less_specific(
            compose_assign_at(a, b, i),
            compose_guard_at(a, b, i),
        ) {
            compose_guard_at(a, b, i)
        } else {
            compose_assign_at(a, b, i)
        })
}

/// Two rules that both stand for the merge of `a` and `b` are the same rule.
pub proof fn lemma_split_merge_unique(m1: Rule, m2: Rule, a: Rule, b: Rule)
    requires
        is_split_merge(m1, a, b),
        is_split_merge(m2, a, b),
    ensures
        m1 == m2,
{
    assert(m1.guard.predicate =~= m2.guard.predicate);
    assert(m1.assign.predicate =~= m2.assign.predicate);
}

/// A transition: when the state fits `guard`, it may move (through `port`, or silently)
/// to the state `assign` describes.
#[derive(Debug, Copy, Clone, Eq, PartialEq, Hash)]
pub struct Rule {
    pub guard: StateSet,
    pub port: Option<PortId>,
    pub assign: StateSet,
}

impl Rule {
    /// The rule applied to `set`: `None` when the guard does not fit, else the state with
    /// explicit assignments made, and positions the guard fixes (without an assignment)
    /// set to the guard's value.
    pub fn apply(&self, set: &StateSet) -> (r: Option<StateSet>)
        ensures
            !guard_fits(self.guard, *set) ==> r is None,
            guard_fits(self.guard, *set) ==> (r matches Some(res) && forall|i: int|
                0 <= i < 3 ==> #[trigger] res.at(i) == applied_at(self.guard.at(i), self.assign.at(i), set.at(i))),
    {
        let mut res = *set;
        let mut i: usize = 0;
        while i < STATE_LEN
            invariant
                i <= 3,
                forall|j: int| 0 <= j < i ==> !spec_mismatch(#[trigger] self.guard.at(j), set.at(j)),
                forall|j: int|
                    0 <= j < 3 ==> #[trigger] res.at(j) == (if j < i {
                        applied_at(self.guard.at(j), self.assign.at(j), set.at(j))
                    } else {
                        set.at(j)
                    }),
            decreases 3 - i,
        {
            let ghost old_res = res;
            let g = self.guard.predicate[i];
            let a = self.assign.predicate[i];
            let r = res.predicate[i];
            assert(r == res.at(i as int));
            assert(g == self.guard.at(i as int));
            assert(a == self.assign.at(i as int));
            if g.mismatches(r) {
                assert(spec_mismatch(self.guard.at(i as int), set.at(i as int)));
                return None;
            } else if a.specific() {
                res.predicate[i] = a;
            } else if g.specific() {
                res.predicate[i] = g;
            }
            assert(res.at(i as int) == applied_at(self.guard.at(i as int), self.assign.at(i as int), set.at(i as int)));
            assert forall|j: int| 0 <= j < 3 && j != i implies res.at(j) == old_res.at(j) by {}
            i += 1;
        }
        Some(res)
    }

    /// Whether the rule has no port and cannot change the state.
    pub fn no_effect(&self) -> (r: bool)
        ensures
            r == (self.port is None && forall|i: int|
                0 <= i < 3 ==> !spec_mismatch(#[trigger] self.guard.at(i), self.assign.at(i))
                    && !spec_less_specific(self.guard.at(i), self.assign.at(i))),
    {
        if self.port.is_some() {
            return false;
        }
        let mut i: usize = 0;
        while i < STATE_LEN
            invariant
                i <= 3,
                self.port is None,
                forall|j: int|
                    0 <= j < i ==> !spec_mismatch(#[trigger] self.guard.at(j), self.assign.at(j))
                        && !spec_less_specific(self.guard.at(j), self.assign.at(j)),
            decreases 3 - i,
        {
            let g = self.guard.predicate[i];
            let a = self.assign.predicate[i];
            if g.mismatches(a) || g.less_specific(a) {
                assert(spec_mismatch(self.guard.at(i as int), self.assign.at(i as int)) || spec_less_specific(
                    self.guard.at(i as int),
                    self.assign.at(i as int),
                ));
                return false;
            }
            i += 1;
        }
        true
    }

    /// Whether the rule moves through no port.
    pub fn is_silent(&self) -> (r: bool)
        ensures
            r == (self.port is None),
    {
        self.port.is_none()
    }

    /// A rule with the given guard, port and assignment, where the assignment is made
    /// at least as specific as the guard.
    pub fn new(guard: StateSet, port: Option<PortId>, assign: StateSet) -> (r: Self)
        ensures
            r.guard == guard,
            r.port == port,
            forall|i: int|
                0 <= i < 3 ==> #[trigger] r.assign.at(i) == (if spec_less_specific(assign.at(i), guard.at(i)) {
                    guard.at(i)
                } else {
                    assign.at(i)
                }),
    {
        let mut assign = assign;
        assign.make_specific_wrt(&guard);
        Self { guard, port, assign }
    }

    /// For two rules whose guards differ in exactly one position, the rule with that
    /// position of the guard left open; `None` when they differ in more.
    pub fn split_merge(&self, other: &Self) -> (r: Option<Rule>)
        ensures
            differ_at_most_once(self.guard, other.guard) ==> (r matches Some(m) && is_split_merge(m, *self, *other)),
            !differ_at_most_once(self.guard, other.guard) ==> r is None,
    {
        let mut guard = self.guard;
        let mut equal_so_far = true;
        let mut i: usize = 0;
        while i < STATE_LEN
            invariant
                i <= 3,
                equal_so_far == (forall|j: int| 0 <= j < i ==> !#[trigger] differs_at(self.guard, other.guard, j)),
                forall|j: int, k: int|
                    0 <= j < k < i ==> !(#[trigger] differs_at(self.guard, other.guard, j) && #[trigger] differs_at(
                        self.guard,
                        other.guard,
                        k,
                    )),
                forall|j: int|
                    0 <= j < 3 ==> #[trigger] guard.predicate@[j] == (if j < i {
                        split_at(self.guard, other.guard, j)
                    } else {
                        self.guard.predicate@[j]
                    }),
            decreases 3 - i,
        {
            let g1 = guard.predicate[i];
            let g2 = other.guard.predicate[i];
            assert(g1 == self.guard.predicate@[i as int]);
            if g1 != g2 {
                assert(differs_at(self.guard, other.guard, i as int));
                if !equal_so_far {
                    let ghost j = choose|j: int| 0 <= j < i && #[trigger] differs_at(self.guard, other.guard, j);
                    assert(!differ_at_most_once(self.guard, other.guard));
                    return None;
                }
                equal_so_far = false;
                guard.predicate[i] = Val::X;
            }
            i += 1;
        }
        let r = Rule::new(guard, self.port, self.assign);
        assert forall|j: int| 0 <= j < 3 implies #[trigger] r.assign.predicate@[j] == (if self.assign.predicate@[j]
            == Val::X && split_at(self.guard, other.guard, j) != Val::X {
            split_at(self.guard, other.guard, j)
        } else {
            self.assign.predicate@[j]
        }) by {
            assert(r.assign.at(j) == r.assign.predicate@[j]);
        }
        Some(r)
    }

    /// The rule for `self` followed by `other`, or `None` when they cannot follow each other.
    pub fn compose(&self, other: &Self) -> (r: Option<Rule>)
        ensures
            !spec_can_precede(*self, *other) ==> r is None,
            spec_can_precede(*self, *other) ==> (r matches Some(m) && is_composition(m, *self, *other)),
    {
        if !self.can_precede(other) {
            return None;
        }
        let port: Option<PortId> = match self.port {
            Some(p) => Some(p),
            None => other.port,
        };
        let mut guard = self.guard;
        let mut assign = other.assign;
        let mut i: usize = 0;
        while i < STATE_LEN
            invariant
                i <= 3,
                forall|j: int|
                    0 <= j < 3 ==> #[trigger] guard.at(j) == (if j < i {
                        compose_guard_at(*self, *other, j)
                    } else {
                        self.guard.at(j)
                    }),
                forall|j: int|
                    0 <= j < 3 ==> #[trigger] assign.at(j) == (if j < i {
                        compose_assign_at(*self, *other, j)
                    } else {
                        other.assign.at(j)
                    }),
            decreases 3 - i,
        {
            let g1 = self.guard.predicate[i];
            let a1 = self.assign.predicate[i];
            let g2 = other.guard.predicate[i];
            let a2 = other.assign.predicate[i];
            if g1.generic() && a1.generic() && g2.specific() {
                guard.predicate[i] = g2;
            }
            if g2.generic() && a2.generic() {
                if a1.specific() {
                    assign.predicate[i] = a1;
                } else if g1.specific() {
                    assign.predicate[i] = g1;
                }
            }
            i += 1;
        }
        Some(Rule::new(guard, port, assign))
    }

    /// Whether this rule may be followed by `other`: at most one of them has a port, and
    /// this rule's assignment fits `other`'s guard.
    pub fn can_precede(&self, other: &Self) -> (r: bool)
        ensures
            r == (!(self.port is Some && other.port is Some) && forall|i: int|
                0 <= i < 3 ==> !spec_mismatch(#[trigger] self.assign.at(i), other.guard.at(i))),
    {
        if self.port.is_some() && other.port.is_some() {
            return false;
        }
        let mut i: usize = 0;
        while i < STATE_LEN
            invariant
                i <= 3,
                forall|j: int| 0 <= j < i ==> !spec_mismatch(#[trigger] self.assign.at(j), other.guard.at(j)),
            decreases 3 - i,
        {
            let a = self.assign.predicate[i];
            let g = other.guard.predicate[i];
            if a.mismatches(g) {
                assert(spec_mismatch(self.assign.at(i as int), other.guard.at(i as int)));
                return false;
            }
            i += 1;
        }
        true
    }
}

/// For each variable, whether it still matters (where it does not, `T`, `F` and `X` are
/// treated alike).
#[derive(Debug, Clone, Copy)]
pub struct StateMask {
    pub relevant_index: [bool; 3],
}

impl StateMask {
    pub fn new(relevant_index: [bool; 3]) -> (r: Self)
        ensures
            r.relevant_index == relevant_index,
    {
        StateMask { relevant_index }
    }

    /// `state` with every irrelevant variable set to `X`.
    pub fn mask(&self, state: StateSet) -> (r: StateSet)
        ensures
            forall|i: int|
                0 <= i < 3 ==> #[trigger] r.at(i) == (if self.relevant_index@[i] {
                    state.at(i)
                } else {
                    Val::X
                }),
    {
        let mut ret = state.clone();
        let mut i: usize = 0;
        while i < STATE_LEN
            invariant
                i <= 3,
                forall|j: int|
                    0 <= j < 3 ==> #[trigger] ret.at(j) == (if j < i && !self.relevant_index@[j] {
                        Val::X
                    } else {
                        state.at(j)
                    }),
            decreases 3 - i,
        {
            if !self.relevant_index[i] {
                ret.predicate[i] = Val::X;
            }
            i += 1;
        }
        ret
    }
}

/// The first pair `(i, j)` with `i < j` of rules that can merge, searching `i` from the
/// given one and, for it, `j` from the given one.
pub open spec fn first_pair_from(rules: Seq<Rule>, i: int, j: int) -> Option<(int, int)>
    decreases rules.len() - i, rules.len() - j,
{
    if i < 0 || i >= rules.len() {
        None
    } else if j >= rules.len() {
        first_pair_from(rules, i + 1, i + 2)
    } else if can_merge(rules[i], rules[j]) {
        Some((i, j))
    } else {
        first_pair_from(rules, i, j + 1)
    }
}

/// The first pair of rules that can merge, in the order `(0, 1), (0, 2), .., (1, 2), ..`.
pub open spec fn first_pair(rules: Seq<Rule>) -> Option<(int, int)> {
    first_pair_from(rules, 0, 1)
}

/// The search from `(i, j)` (taken as indices) is the search from the start.
pub open spec fn search_at(rules: Seq<Rule>, i: usize, j: usize) -> bool {
    first_pair(rules) == first_pair_from(rules, i as int, j as int)
}

/// The search from `(i, i + 1)` is the search from the start.
pub open spec fn search_at_row(rules: Seq<Rule>, i: usize) -> bool {
    first_pair(rules) == first_pair_from(rules, i as int, i + 1)
}

/// A pair found from `(i, j)` lies at or after row `i`, and in range.
pub proof fn lemma_first_pair_bounds(rules: Seq<Rule>, i: int, j: int)
    requires
        0 <= i < j,
    ensures
        first_pair_from(rules, i, j) matches Some((p, q)) ==> i <= p && p < q < rules.len(),
    decreases rules.len() - i, rules.len() - j,
{
    if i < 0 || i >= rules.len() {
    } else if j >= rules.len() {
        lemma_first_pair_bounds(rules, i + 1, i + 2);
    } else if can_merge(rules[i], rules[j]) {
    } else {
        lemma_first_pair_bounds(rules, i, j + 1);
    }
}

/// No pair at or after `(i, j)` in the search order can merge when the search from there
/// finds none.
pub proof fn lemma_first_pair_none(rules: Seq<Rule>, i: int, j: int)
    requires
        0 <= i < j,
        first_pair_from(rules, i, j) is None,
    ensures
        forall|q: int| j <= q < rules.len() ==> !can_merge(rules[i], #[trigger] rules[q]),
        forall|p: int, q: int| i < p < q < rules.len() ==> !can_merge(#[trigger] rules[p], #[trigger] rules[q]),
    decreases rules.len() - i, rules.len() - j,
{
    if i < 0 || i >= rules.len() {
    } else if j >= rules.len() {
        lemma_first_pair_none(rules, i + 1, i + 2);
        assert forall|p: int, q: int| i < p < q < rules.len() implies !can_merge(#[trigger] rules[p], #[trigger] rules[q]) by {
            if p > i + 1 {
            } else {
                assert(q >= i + 2);
            }
        }
    } else {
        lemma_first_pair_none(rules, i, j + 1);
    }
}

/// Rules with no two that can merge.
pub open spec fn fully_merged(rules: Seq<Rule>) -> bool {
    forall|p: int, q: int| 0 <= p < q < rules.len() ==> !can_merge(#[trigger] rules[p], #[trigger] rules[q])
}

/// The rules after merging the first mergeable pair, as long as there is one: the first
/// rule of the pair is replaced by their merge and the second is removed.
pub open spec fn merge_all(rules: Seq<Rule>) -> Seq<Rule>
    decreases rules.len(),
{
    match first_pair(rules) {
        Some((i, j)) => if 0 <= i < j < rules.len() {
            merge_all(rules.update(i, merged(rules[i], rules[j])).remove(j))
        } else {
            rules
        },
        None => rules,
    }
}

/// Merging leaves no two rules that can merge, and never adds a rule.
pub proof fn lemma_merge_all(rules: Seq<Rule>)
    ensures
        fully_merged(merge_all(rules)),
        merge_all(rules).len() <= rules.len(),
        merge_all(rules).len() == rules.len() <==> first_pair(rules) is None,
    decreases rules.len(),
{
    lemma_first_pair_bounds(rules, 0, 1);
    match first_pair(rules) {
        Some((i, j)) => {
            let next = rules.update(i, merged(rules[i], rules[j])).remove(j);
            lemma_merge_all(next);
        },
        None => {
            lemma_first_pair_none(rules, 0, 1);
            assert forall|p: int, q: int| 0 <= p < q < rules.len() implies !can_merge(#[trigger] rules[p], #[trigger] rules[q]) by {
                if p == 0 {
                    assert(1 <= q);
                }
            }
        },
    }
}

/// The first pair of `rules` that can merge, with their merge.
pub fn find_merge(rules: &Vec<Rule>) -> (r: Option<(usize, usize, Rule)>)
    ensures
        match first_pair(rules@) {
            None => r is None,
            Some((i, j)) => r matches Some((a, b, m)) && a == i && b == j && m == merged(rules@[i], rules@[j]),
        },
{
    let n = rules.len();
    let mut i: usize = 0;
    while i < n
        invariant
            n == rules@.len(),
            i <= n,
            search_at_row(rules@, i),
        decreases n - i,
    {
        let mut j: usize = i + 1;
        while j < n
            invariant
                n == rules@.len(),
                i < n,
                i < j <= n,
                search_at(rules@, i, j),
            decreases n - j,
        {
            match rules[i].try_merge(&rules[j]) {
                Some(m) => {
                    return Some((i, j, m));
                },
                None => {},
            }
            j += 1;
        }
        i += 1;
    }
    None
}

/// Whether rule `r` neither moves through a port nor changes the state.
pub open spec fn spec_no_effect(r: Rule) -> bool {
    r.port is None && forall|i: int|
        0 <= i < 3 ==> !spec_mismatch(#[trigger] r.guard.at(i), r.assign.at(i)) && !spec_less_specific(
            r.guard.at(i),
            r.assign.at(i),
        )
}

/// The rule for `a` followed by `b`.
pub open spec fn composed(a: Rule, b: Rule) -> Rule {
    choose|m: Rule| is_composition(m, a, b)
}

/// Two rules that both stand for `a` followed by `b` are the same rule.
pub proof fn lemma_composition_unique(m1: Rule, m2: Rule, a: Rule, b: Rule)
    requires
        is_composition(m1, a, b),
        is_composition(m2, a, b),
    ensures
        m1 == m2,
{
    assert forall|i: int| 0 <= i < 3 implies m1.guard.predicate[i] == m2.guard.predicate[i] by {
        assert(m1.guard.at(i) == m2.guard.at(i));
    }
    assert forall|i: int| 0 <= i < 3 implies m1.assign.predicate[i] == m2.assign.predicate[i] by {
        assert(m1.assign.at(i) == m2.assign.at(i));
    }
    assert(m1.guard.predicate =~= m2.guard.predicate);
    assert(m1.assign.predicate =~= m2.assign.predicate);
}

/// For each rule of `rest` in order, the rule for `s` followed by it, where they can
/// follow each other.
pub open spec fn compositions(s: Rule, rest: Seq<Rule>) -> Seq<Rule>
    decreases rest.len(),
{
    if rest.len() == 0 {
        Seq::empty()
    } else {
        let prev = compositions(s, rest.drop_last());
        if spec_can_precede(s, rest.last()) {
            prev.push(composed(s, rest.last()))
        } else {
            prev
        }
    }
}

/// Whether `k` is the index of the first rule without a port.
pub open spec fn is_first_silent(rules: Seq<Rule>, k: int) -> bool {
    &&& 0 <= k < rules.len()
    &&& rules[k].port is None
    &&& forall|j: int| 0 <= j < k ==> (#[trigger] rules[j]).port is Some
}

/// Whether every rule has a port.
pub open spec fn all_have_ports(rules: Seq<Rule>) -> bool {
    forall|j: int| 0 <= j < rules.len() ==> (#[trigger] rules[j]).port is Some
}

/// The rules after taking out the silent rule at `k`: unchanged if it has no effect,
/// else followed by its compositions with each remaining rule, then merged.
pub open spec fn without_silent(rules: Seq<Rule>, k: int) -> Seq<Rule> {
    let s = rules[k];
    let rest = rules.remove(k);
    if spec_no_effect(s) {
        rest
    } else {
        merge_all(rest + compositions(s, rest))
    }
}

/// Whether no rule tests variable `i`.
pub open spec fn unused_at(rules: Seq<Rule>, i: int) -> bool {
    forall|k: int| 0 <= k < rules.len() ==> (#[trigger] rules[k]).guard.at(i) == Val::X
}

/// Whether variable `i` still counts as relevant although no rule tests it.
pub open spec fn newly_irrelevant(mask: StateMask, rules: Seq<Rule>, i: int) -> bool {
    mask.relevant_index@[i] && unused_at(rules, i)
}

/// `v`, or `X` where the variable is dropped.
pub open spec fn forget_if(v: Val, drop: bool) -> Val {
    if drop {
        Val::X
    } else {
        v
    }
}

/// `s` with every variable that has newly become irrelevant left open.
pub open spec fn masked_state(s: StateSet, mask: StateMask, rules: Seq<Rule>) -> StateSet {
    StateSet {
        predicate: [
            forget_if(s.at(0), newly_irrelevant(mask, rules, 0)),
            forget_if(s.at(1), newly_irrelevant(mask, rules, 1)),
            forget_if(s.at(2), newly_irrelevant(mask, rules, 2)),
        ],
    }
}

/// The rules with every variable that has newly become irrelevant left open.
pub open spec fn masked_rules(mask: StateMask, rules: Seq<Rule>) -> Seq<Rule> {
    Seq::new(
        rules.len(),
        |k: int|
            Rule {
                guard: masked_state(rules[k].guard, mask, rules),
                port: rules[k].port,
                assign: masked_state(rules[k].assign, mask, rules),
            },
    )
}

/// The mask with every variable that has newly become irrelevant dropped.
pub open spec fn masked_mask(mask: StateMask, rules: Seq<Rule>) -> StateMask {
    StateMask {
        relevant_index: [
            mask.relevant_index@[0] && !newly_irrelevant(mask, rules, 0),
            mask.relevant_index@[1] && !newly_irrelevant(mask, rules, 1),
            mask.relevant_index@[2] && !newly_irrelevant(mask, rules, 2),
        ],
    }
}

/// Whether some variable still counts as relevant although no rule tests it.
pub open spec fn any_newly_irrelevant(mask: StateMask, rules: Seq<Rule>) -> bool {
    newly_irrelevant(mask, rules, 0) || newly_irrelevant(mask, rules, 1) || newly_irrelevant(mask, rules, 2)
}

/// Masking and merging, again and again, until neither changes anything: the rules and
/// mask that are left.
pub open spec fn settle(rules: Seq<Rule>, mask: StateMask) -> (Seq<Rule>, StateMask)
    decreases relevant_count(mask), rules.len(),
{
    if any_newly_irrelevant(mask, rules) {
        settle(masked_rules(mask, rules), masked_mask(mask, rules))
    } else if merge_all(rules).len() < rules.len() {
        settle(merge_all(rules), mask)
    } else {
        (rules, mask)
    }
}

proof fn lemma_masked_exact(old_rules: Seq<Rule>, old_mask: StateMask, rules: Seq<Rule>, mask: StateMask)
    requires
        rules.len() == old_rules.len(),
        forall|i: int|
            0 <= i < 3 ==> #[trigger] mask.relevant_index@[i] == (old_mask.relevant_index@[i] && !newly_irrelevant(
                old_mask,
                old_rules,
                i,
            )),
        forall|k: int| 0 <= k < old_rules.len() ==> (#[trigger] rules[k]).port == old_rules[k].port,
        forall|k: int, i: int|
            0 <= k < old_rules.len() && 0 <= i < 3 ==> #[trigger] rules[k].guard.at(i) == forget_if(
                old_rules[k].guard.at(i),
                newly_irrelevant(old_mask, old_rules, i),
            ),
        forall|k: int, i: int|
            0 <= k < old_rules.len() && 0 <= i < 3 ==> #[trigger] rules[k].assign.at(i) == forget_if(
                old_rules[k].assign.at(i),
                newly_irrelevant(old_mask, old_rules, i),
            ),
    ensures
        rules == masked_rules(old_mask, old_rules),
        mask == masked_mask(old_mask, old_rules),
{
    let target = masked_rules(old_mask, old_rules);
    assert forall|k: int| 0 <= k < rules.len() implies #[trigger] rules[k] == target[k] by {
        assert(rules[k].guard.at(0) == target[k].guard.at(0));
        assert(rules[k].guard.at(1) == target[k].guard.at(1));
        assert(rules[k].guard.at(2) == target[k].guard.at(2));
        assert(rules[k].assign.at(0) == target[k].assign.at(0));
        assert(rules[k].assign.at(1) == target[k].assign.at(1));
        assert(rules[k].assign.at(2) == target[k].assign.at(2));
        assert(rules[k].guard.predicate =~= target[k].guard.predicate);
        assert(rules[k].assign.predicate =~= target[k].assign.predicate);
    }
    assert(rules =~= target);
    let m = masked_mask(old_mask, old_rules);
    assert(mask.relevant_index@[0] == m.relevant_index@[0]);
    assert(mask.relevant_index@[1] == m.relevant_index@[1]);
    assert(mask.relevant_index@[2] == m.relevant_index@[2]);
    assert(mask.relevant_index =~= m.relevant_index);
}

/// How many variables the mask keeps.
pub open spec fn relevant_count(mask: StateMask) -> nat {
    (if mask.relevant_index@[0] { 1nat } else { 0nat }) + (if mask.relevant_index@[1] { 1nat } else { 0nat }) + (
    if mask.relevant_index@[2] {
        1nat
    } else {
        0nat
    })
}

/// A set of port ids (a `hashbrown::HashSet<PortId>`).
#[verifier::external_body]
pub struct PortSet {
    inner: hashbrown::HashSet<PortId>,
}

/// What a [`PortSet`] holds.
pub uninterp spec fn port_set_contents(s: PortSet) -> Set<PortId>;

impl PortSet {
    /// `hashbrown::HashSet::new`: the set starts empty.
    #[verifier::external_body]
    pub fn new() -> (r: PortSet)
        ensures
            port_set_contents(r) =~= Set::empty(),
    {
        PortSet { inner: hashbrown::HashSet::new() }
    }

    /// `hashbrown::HashSet::insert`: adds `p`; whether it was absent.
    #[verifier::external_body]
    pub fn insert(&mut self, p: PortId) -> (r: bool)
        ensures
            port_set_contents(*final(self)) == port_set_contents(*old(self)).insert(p),
            r == !port_set_contents(*old(self)).contains(p),
    {
        self.inner.insert(p)
    }

    /// `hashbrown::HashSet::contains`.
    #[verifier::external_body]
    pub fn contains(&self, p: PortId) -> (r: bool)
        ensures
            r == port_set_contents(*self).contains(p),
    {
        self.inner.contains(&p)
    }
}

/// Whether every open position of the rule's assignment is open in its guard too (so
/// that what the guard fixes is also what the rule leaves there).
pub open spec fn rule_wf(r: Rule) -> bool {
    forall|i: int| 0 <= i < 3 ==> #[trigger] r.assign.at(i) == Val::X ==> r.guard.at(i) == Val::X
}

/// Whether the rule takes the state `s` to the state `t`.
pub open spec fn applies_to(r: Rule, s: StateSet, t: StateSet) -> bool {
    &&& guard_fits(r.guard, s)
    &&& forall|i: int| 0 <= i < 3 ==> #[trigger] t.at(i) == applied_at(r.guard.at(i), r.assign.at(i), s.at(i))
}

/// The state that rule `r` leaves when applied to `s`.
pub open spec fn applied(r: Rule, s: StateSet) -> StateSet {
    StateSet {
        predicate: [
            applied_at(r.guard.at(0), r.assign.at(0), s.at(0)),
            applied_at(r.guard.at(1), r.assign.at(1), s.at(1)),
            applied_at(r.guard.at(2), r.assign.at(2), s.at(2)),
        ],
    }
}

/// A rule made by [`Rule::new`] has every open assignment position open in its guard.
pub proof fn law_new_rule_wf(guard: StateSet, port: Option<PortId>, assign: StateSet, r: Rule)
    requires
        r.guard == guard,
        r.port == port,
        forall|i: int|
            0 <= i < 3 ==> #[trigger] r.assign.at(i) == (if spec_less_specific(assign.at(i), guard.at(i)) {
                guard.at(i)
            } else {
                assign.at(i)
            }),
    ensures
        rule_wf(r),
{
}

/// Composition is sequencing: when `a` takes `s` to `t` and `b` takes `t` to `u` (and
/// at most one of them has a port), `a` may precede `b`, and their composition takes `s`
/// straight to `u`.
pub proof fn law_compose_sound(a: Rule, b: Rule, m: Rule, s: StateSet, t: StateSet, u: StateSet)
    requires
        rule_wf(a),
        rule_wf(b),
        !(a.port is Some && b.port is Some),
        applies_to(a, s, t),
        applies_to(b, t, u),
        is_composition(m, a, b),
    ensures
        spec_can_precede(a, b),
        applies_to(m, s, u),
{
    assert forall|i: int| 0 <= i < 3 implies !spec_mismatch(#[trigger] a.assign.at(i), b.guard.at(i)) by {
        assert(t.at(i) == applied_at(a.guard.at(i), a.assign.at(i), s.at(i)));
        assert(!spec_mismatch(b.guard.at(i), t.at(i)));
        assert(a.assign.at(i) == Val::X ==> a.guard.at(i) == Val::X);
    }
    assert forall|i: int| 0 <= i < 3 implies !spec_mismatch(#[trigger] m.guard.at(i), s.at(i)) by {
        assert(m.guard.at(i) == compose_guard_at(a, b, i));
        assert(t.at(i) == applied_at(a.guard.at(i), a.assign.at(i), s.at(i)));
        assert(!spec_mismatch(b.guard.at(i), t.at(i)));
        assert(!spec_mismatch(a.guard.at(i), s.at(i)));
    }
    assert forall|i: int| 0 <= i < 3 implies #[trigger] u.at(i) == applied_at(m.guard.at(i), m.assign.at(i), s.at(i)) by {
        assert(m.guard.at(i) == compose_guard_at(a, b, i));
        assert(t.at(i) == applied_at(a.guard.at(i), a.assign.at(i), s.at(i)));
        assert(u.at(i) == applied_at(b.guard.at(i), b.assign.at(i), t.at(i)));
        assert(!spec_mismatch(b.guard.at(i), t.at(i)));
        assert(a.assign.at(i) == Val::X ==> a.guard.at(i) == Val::X);
        assert(b.assign.at(i) == Val::X ==> b.guard.at(i) == Val::X);
    }
}

/// Composition loses no sequence: whatever state the composition of `a` and `b` takes
/// `s` to, `a` takes `s` to some state from which `b` reaches the same.
pub proof fn law_compose_complete(a: Rule, b: Rule, m: Rule, s: StateSet, u: StateSet)
    requires
        rule_wf(a),
        rule_wf(b),
        spec_can_precede(a, b),
        is_composition(m, a, b),
        applies_to(m, s, u),
    ensures
        applies_to(a, s, applied(a, s)),
        applies_to(b, applied(a, s), u),
{
    let t = applied(a, s);
    assert forall|i: int| 0 <= i < 3 implies #[trigger] t.at(i) == applied_at(a.guard.at(i), a.assign.at(i), s.at(i)) by {
    }
    assert forall|i: int| 0 <= i < 3 implies !spec_mismatch(#[trigger] a.guard.at(i), s.at(i)) by {
        assert(m.guard.at(i) == compose_guard_at(a, b, i));
        assert(!spec_mismatch(m.guard.at(i), s.at(i)));
    }
    assert forall|i: int| 0 <= i < 3 implies !spec_mismatch(#[trigger] b.guard.at(i), t.at(i)) by {
        assert(t.at(i) == applied_at(a.guard.at(i), a.assign.at(i), s.at(i)));
        assert(m.guard.at(i) == compose_guard_at(a, b, i));
        assert(!spec_mismatch(m.guard.at(i), s.at(i)));
        assert(!spec_mismatch(a.assign.at(i), b.guard.at(i)));
        assert(a.assign.at(i) == Val::X ==> a.guard.at(i) == Val::X);
    }
    assert forall|i: int| 0 <= i < 3 implies #[trigger] u.at(i) == applied_at(b.guard.at(i), b.assign.at(i), t.at(i)) by {
        assert(t.at(i) == applied_at(a.guard.at(i), a.assign.at(i), s.at(i)));
        assert(m.guard.at(i) == compose_guard_at(a, b, i));
        assert(u.at(i) == applied_at(m.guard.at(i), m.assign.at(i), s.at(i)));
        assert(!spec_mismatch(m.guard.at(i), s.at(i)));
        assert(!spec_mismatch(a.assign.at(i), b.guard.at(i)));
        assert(a.assign.at(i) == Val::X ==> a.guard.at(i) == Val::X);
        assert(b.assign.at(i) == Val::X ==> b.guard.at(i) == Val::X);
    }
}

/// After [`Rbpa::merge_rules`] no two rules can be merged, and none was added.
pub proof fn law_merge_rules_complete(rules: Seq<Rule>)
    ensures
        fully_merged(merge_all(rules)),
        merge_all(rules).len() <= rules.len(),
{
    lemma_merge_all(rules);
}

/// A port automaton whose transitions are rules over three state variables, with a mask
/// of the variables that still matter.
#[derive(Debug, Clone)]
pub struct Rbpa {
    pub mask: StateMask,
    pub rules: Vec<Rule>,
}

impl Rbpa {
    /// Merges the first pair of rules that can merge, again and again, while there is
    /// one; whether anything was merged.
    pub fn merge_rules(&mut self) -> (changed: bool)
        ensures
            final(self).rules@ == merge_all(old(self).rules@),
            final(self).mask == old(self).mask,
            changed == (final(self).rules@.len() < old(self).rules@.len()),
    {
        let mut changed = false;
        loop
            invariant
                merge_all(self.rules@) == merge_all(old(self).rules@),
                self.mask == old(self).mask,
                changed == (self.rules@.len() < old(self).rules@.len()),
                self.rules@.len() <= old(self).rules@.len(),
            decreases self.rules@.len(),
        {
            proof {
                lemma_first_pair_bounds(self.rules@, 0, 1);
            }
            match find_merge(&self.rules) {
                None => {
                    return changed;
                },
                Some((i, j, m)) => {
                    let ghost before = self.rules@;
                    self.rules[i] = m;
                    self.rules.remove(j);
                    assert(self.rules@ == before.update(i as int, merged(before[i as int], before[j as int])).remove(
                        j as int,
                    ));
                    changed = true;
                },
            }
        }
    }

    /// Marks as irrelevant every variable that no rule tests, and leaves it open in every
    /// rule; whether any variable was marked.
    pub fn mask_irrelevant_vars(&mut self) -> (changed: bool)
        ensures
            final(self).rules@ == masked_rules(old(self).mask, old(self).rules@),
            final(self).mask == masked_mask(old(self).mask, old(self).rules@),
            changed == any_newly_irrelevant(old(self).mask, old(self).rules@),
    {
        let ghost old_rules = self.rules@;
        let ghost old_mask = self.mask;
        let n = self.rules.len();
        let mut changed = false;
        let mut i: usize = 0;
        while i < STATE_LEN
            invariant
                i <= 3,
                n == old_rules.len(),
                self.rules@.len() == n,
                forall|j: int|
                    0 <= j < 3 ==> #[trigger] self.mask.relevant_index@[j] == (if j < i {
                        old_mask.relevant_index@[j] && !newly_irrelevant(old_mask, old_rules, j)
                    } else {
                        old_mask.relevant_index@[j]
                    }),
                forall|k: int| 0 <= k < n ==> (#[trigger] self.rules@[k]).port == old_rules[k].port,
                forall|k: int, j: int|
                    0 <= k < n && 0 <= j < 3 ==> #[trigger] self.rules@[k].guard.at(j) == (if j < i {
                        forget_if(old_rules[k].guard.at(j), newly_irrelevant(old_mask, old_rules, j))
                    } else {
                        old_rules[k].guard.at(j)
                    }),
                forall|k: int, j: int|
                    0 <= k < n && 0 <= j < 3 ==> #[trigger] self.rules@[k].assign.at(j) == (if j < i {
                        forget_if(old_rules[k].assign.at(j), newly_irrelevant(old_mask, old_rules, j))
                    } else {
                        old_rules[k].assign.at(j)
                    }),
                changed == exists|j: int| 0 <= j < i && newly_irrelevant(old_mask, old_rules, j),
            decreases 3 - i,
        {
            let ghost mask_now = self.mask;
            if self.mask.relevant_index[i] {
                let mut all_open = true;
                let mut k: usize = 0;
                while k < n
                    invariant
                        i < 3,
                        self.mask == mask_now,
                        n == old_rules.len(),
                        self.rules@.len() == n,
                        k <= n,
                        forall|kk: int, j: int|
                            0 <= kk < n && 0 <= j < 3 && j >= i ==> #[trigger] self.rules@[kk].guard.at(j)
                                == old_rules[kk].guard.at(j),
                        all_open == (forall|kk: int| 0 <= kk < k ==> (#[trigger] old_rules[kk]).guard.at(i as int) == Val::X),
                    decreases n - k,
                {
                    let g = self.rules[k].guard.predicate[i];
                    assert(g == self.rules@[k as int].guard.at(i as int));
                    if g.specific() {
                        all_open = false;
                    }
                    k += 1;
                }
                if all_open {
                    assert(unused_at(old_rules, i as int));
                    self.mask.relevant_index[i] = false;
                    changed = true;
                    let ghost mask_set = self.mask;
                    let mut k: usize = 0;
                    while k < n
                        invariant
                            i < 3,
                            self.mask == mask_set,
                            n == old_rules.len(),
                            self.rules@.len() == n,
                            k <= n,
                            newly_irrelevant(old_mask, old_rules, i as int),
                            forall|kk: int| 0 <= kk < n ==> (#[trigger] self.rules@[kk]).port == old_rules[kk].port,
                            forall|kk: int, j: int|
                                0 <= kk < n && 0 <= j < 3 ==> #[trigger] self.rules@[kk].guard.at(j) == (if j < i || (j
                                    == i && kk < k) {
                                    forget_if(old_rules[kk].guard.at(j), newly_irrelevant(old_mask, old_rules, j))
                                } else {
                                    old_rules[kk].guard.at(j)
                                }),
                            forall|kk: int, j: int|
                                0 <= kk < n && 0 <= j < 3 ==> #[trigger] self.rules@[kk].assign.at(j) == (if j < i || (j
                                    == i && kk < k) {
                                    forget_if(old_rules[kk].assign.at(j), newly_irrelevant(old_mask, old_rules, j))
                                } else {
                                    old_rules[kk].assign.at(j)
                                }),
                        decreases n - k,
                    {
                        let ghost before = self.rules@;
                        let mut r = self.rules[k];
                        r.guard.predicate[i] = Val::X;
                        r.assign.predicate[i] = Val::X;
                        self.rules[k] = r;
                        assert forall|kk: int| 0 <= kk < n && kk != k implies #[trigger] self.rules@[kk] == before[kk] by {}
                        assert forall|j: int| 0 <= j < 3 && j != i implies #[trigger] self.rules@[k as int].guard.at(j)
                            == before[k as int].guard.at(j) by {}
                        assert forall|j: int| 0 <= j < 3 && j != i implies #[trigger] self.rules@[k as int].assign.at(j)
                            == before[k as int].assign.at(j) by {}
                        assert(self.rules@[k as int].guard.at(i as int) == Val::X);
                        assert(self.rules@[k as int].assign.at(i as int) == Val::X);
                        k += 1;
                    }
                } else {
                    let ghost kk = choose|kk: int| 0 <= kk < n && (#[trigger] old_rules[kk]).guard.at(i as int) != Val::X;
                    assert(!unused_at(old_rules, i as int));
                }
            }
            assert(self.mask.relevant_index@[i as int] == (old_mask.relevant_index@[i as int] && !newly_irrelevant(
                old_mask,
                old_rules,
                i as int,
            )));
            i += 1;
        }
        proof {
            lemma_masked_exact(old_rules, old_mask, self.rules@, self.mask);
            if any_newly_irrelevant(old_mask, old_rules) {
                if newly_irrelevant(old_mask, old_rules, 0) {
                    assert(0 < 3int);
                } else if newly_irrelevant(old_mask, old_rules, 1) {
                    assert(1 < 3int);
                }
            }
        }
        changed
    }

    /// The index of the first rule without a port, if any.
    pub fn first_silent_idx(&self) -> (r: Option<usize>)
        ensures
            r matches Some(k) ==> is_first_silent(self.rules@, k as int),
            r is None ==> all_have_ports(self.rules@),
    {
        let n = self.rules.len();
        let mut k: usize = 0;
        while k < n
            invariant
                n == self.rules@.len(),
                k <= n,
                forall|j: int| 0 <= j < k ==> (#[trigger] self.rules@[j]).port is Some,
            decreases n - k,
        {
            if self.rules[k].is_silent() {
                return Some(k);
            }
            k += 1;
        }
        None
    }

    /// One round of removing silent rules: takes out the first rule without a port and,
    /// unless it has no effect, adds its composition with each remaining rule (where they
    /// can follow each other) and merges. Whether there was a silent rule.
    pub fn normalize_step(&mut self) -> (progressed: bool)
        ensures
            progressed == !all_have_ports(old(self).rules@),
            !progressed ==> final(self).rules@ == old(self).rules@ && final(self).mask == old(self).mask,
            forall|k: int|
                is_first_silent(old(self).rules@, k) ==> final(self).rules@ == without_silent(old(self).rules@, k)
                    && final(self).mask == old(self).mask,
    {
        match self.first_silent_idx() {
            None => false,
            Some(idx) => {
                let ghost before = self.rules@;
                proof {
                    assert forall|k: int| is_first_silent(before, k) implies k == idx by {
                        if k < idx {
                            assert(before[k].port is Some);
                        }
                        if k > idx {
                            assert(before[idx as int].port is Some);
                        }
                    }
                }
                let silent = self.rules.remove(idx);
                if silent.no_effect() {
                    return true;
                }
                let mut buf: Vec<Rule> = Vec::new();
                let n = self.rules.len();
                let mut i: usize = 0;
                while i < n
                    invariant
                        n == self.rules@.len(),
                        i <= n,
                        buf@ == compositions(silent, self.rules@.take(i as int)),
                    decreases n - i,
                {
                    let ghost prefix = self.rules@.take(i as int);
                    assert(self.rules@.take(i + 1).drop_last() =~= prefix);
                    match silent.compose(&self.rules[i]) {
                        Some(c) => {
                            proof {
                                lemma_composition_unique(c, composed(silent, self.rules@[i as int]), silent, self.rules@[i as int]);
                            }
                            buf.push(c);
                        },
                        None => {},
                    }
                    i += 1;
                }
                assert(self.rules@.take(n as int) =~= self.rules@);
                self.rules.append(&mut buf);
                self.merge_rules();
                true
            },
        }
    }

    /// Merges, then masks and merges until neither changes anything: no two rules can then
    /// merge and every variable still marked relevant is tested by some rule.
    pub fn normalize_finish(&mut self)
        ensures
            (final(self).rules@, final(self).mask) == settle(merge_all(old(self).rules@), old(self).mask),
            fully_merged(final(self).rules@),
            forall|i: int| 0 <= i < 3 ==> !newly_irrelevant(final(self).mask, final(self).rules@, i),
            final(self).rules@.len() <= old(self).rules@.len(),
            forall|i: int|
                0 <= i < 3 ==> #[trigger] final(self).mask.relevant_index@[i] ==> old(self).mask.relevant_index@[i],
    {
        self.merge_rules();
        proof {
            lemma_merge_all(old(self).rules@);
        }
        loop
            invariant
                self.rules@.len() <= old(self).rules@.len(),
                forall|i: int|
                    0 <= i < 3 ==> #[trigger] self.mask.relevant_index@[i] ==> old(self).mask.relevant_index@[i],
                settle(self.rules@, self.mask) == settle(merge_all(old(self).rules@), old(self).mask),
            decreases relevant_count(self.mask), self.rules@.len(),
        {
            let ghost before = *self;
            let masked = self.mask_irrelevant_vars();
            if !masked {
                assert(self.mask.relevant_index@ =~= before.mask.relevant_index@);
                let ghost mid = self.rules@;
                assert forall|k: int| 0 <= k < mid.len() implies #[trigger] mid[k] == before.rules@[k] by {
                    assert forall|i: int| 0 <= i < 3 implies mid[k].guard.predicate[i] == before.rules@[k].guard.predicate[i]
                        && mid[k].assign.predicate[i] == before.rules@[k].assign.predicate[i] by {
                        assert(!newly_irrelevant(before.mask, before.rules@, i));
                        assert(mid[k].guard.at(i) == forget_if(
                            before.rules@[k].guard.at(i),
                            newly_irrelevant(before.mask, before.rules@, i),
                        ));
                        assert(mid[k].assign.at(i) == forget_if(
                            before.rules@[k].assign.at(i),
                            newly_irrelevant(before.mask, before.rules@, i),
                        ));
                    }
                    assert(mid[k].guard.predicate =~= before.rules@[k].guard.predicate);
                    assert(mid[k].assign.predicate =~= before.rules@[k].assign.predicate);
                }
                assert(mid =~= before.rules@);
                let merged_any = self.merge_rules();
                proof {
                    lemma_merge_all(mid);
                }
                proof {
                    assert(self.mask.relevant_index =~= before.mask.relevant_index);
                    assert(!any_newly_irrelevant(before.mask, before.rules@));
                    if merged_any {
                        assert(settle(before.rules@, before.mask) == settle(merge_all(mid), before.mask));
                    } else {
                        assert(settle(before.rules@, before.mask) == (mid, before.mask));
                    }
                }
                if !merged_any {
                    assert(self.rules@ == mid);
                    return;
                }
            } else {
                let ghost i = choose|i: int| 0 <= i < 3 && newly_irrelevant(before.mask, before.rules@, i);
                assert(!self.mask.relevant_index@[i]);
                assert(self.mask.relevant_index@[0] ==> before.mask.relevant_index@[0]);
                assert(self.mask.relevant_index@[1] ==> before.mask.relevant_index@[1]);
                assert(self.mask.relevant_index@[2] ==> before.mask.relevant_index@[2]);
                assert(relevant_count(self.mask) < relevant_count(before.mask));
                assert(settle(before.rules@, before.mask) == settle(self.rules@, self.mask));

            }
        }
    }

    /// Hides every port outside `atomic_ports`: its rules become silent.
    pub fn hide_ports(&mut self, atomic_ports: &PortSet)
        ensures
            final(self).mask == old(self).mask,
            final(self).rules@.len() == old(self).rules@.len(),
            forall|k: int|
                0 <= k < old(self).rules@.len() ==> {
                    &&& (#[trigger] final(self).rules@[k]).guard == old(self).rules@[k].guard
                    &&& final(self).rules@[k].assign == old(self).rules@[k].assign
                    &&& final(self).rules@[k].port == (match old(self).rules@[k].port {
                        Some(p) => if port_set_contents(*atomic_ports).contains(p) {
                            Some(p)
                        } else {
                            None
                        },
                        None => None,
                    })
                },
    {
        let ghost before = self.rules@;
        let n = self.rules.len();
        let mut k: usize = 0;
        while k < n
            invariant
                n == before.len(),
                self.rules@.len() == n,
                self.mask == old(self).mask,
                k <= n,
                forall|kk: int|
                    0 <= kk < n ==> {
                        &&& (#[trigger] self.rules@[kk]).guard == before[kk].guard
                        &&& self.rules@[kk].assign == before[kk].assign
                        &&& self.rules@[kk].port == (if kk < k {
                            match before[kk].port {
                                Some(p) => if port_set_contents(*atomic_ports).contains(p) {
                                    Some(p)
                                } else {
                                    None
                                },
                                None => None,
                            }
                        } else {
                            before[kk].port
                        })
                    },
            decreases n - k,
        {
            let mut r = self.rules[k];
            match r.port {
                Some(p) => {
                    if !atomic_ports.contains(p) {
                        r.port = None;
                        self.rules[k] = r;
                    }
                },
                None => {},
            }
            k += 1;
        }
    }
}

} // verus!
