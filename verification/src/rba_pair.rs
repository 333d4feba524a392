//! Checking a simplified automaton against the one it came from: a random run of the
//! full automaton is replayed step by step, each step at a kept port matched by the simplified
//! automaton.
use crate::rba_preprocess::{applies_to, port_set_contents, PortId, PortSet, Rbpa, Rule, StateMask, StateSet};
use crate::val::Val;
use rand::seq::SliceRandom;
use vstd::prelude::*;

verus! {

/// How many steps a run takes at most.
pub const RUN_STEPS: usize = 24;

/// `rand::seq::SliceRandom::shuffle` with `rand::thread_rng()`: the indices in a random
/// order, each kept exactly as often as before (the order itself is left open).
#[verifier::external_body]
fn shuffle_order(v: &mut Vec<usize>)
    ensures
        final(v)@.to_multiset() == old(v)@.to_multiset(),
        final(v)@.len() == old(v)@.len(),
{
    v.shuffle(&mut rand::thread_rng())
}

/// How a run ended.
#[derive(Debug, Copy, Clone, PartialEq, Eq, Structural)]
pub enum PairEnd {
    /// All steps were taken.
    Completed,
    /// No rule of the full automaton applied any more.
    Stuck,
    /// A step at a kept port had no counterpart in the simplified automaton.
    FailedToMatch,
}

/// A run of the full automaton and what the simplified one did alongside.
pub struct PairRun {
    /// Each step of the full automaton: its port and the state it reached.
    pub steps: Vec<(Option<PortId>, StateSet)>,
    /// Each step of the simplified automaton: its port and the (masked) state it reached.
    pub atomic_steps: Vec<(PortId, StateSet)>,
    pub end: PairEnd,
}

/// Whether the two state sets are equal.
pub fn same_state(a: &StateSet, b: &StateSet) -> (r: bool)
    ensures
        r == (a == b),
{
    let r = a.predicate[0] == b.predicate[0] && a.predicate[1] == b.predicate[1] && a.predicate[2] == b.predicate[2];
    proof {
        if r {
            assert(a.predicate =~= b.predicate);
        }
    }
    r
}

/// `s` with every variable the mask drops set to `X`.
pub open spec fn masked(m: StateMask, s: StateSet) -> StateSet {
    StateSet {
        predicate: [
            if m.relevant_index@[0] { s.predicate@[0] } else { Val::X },
            if m.relevant_index@[1] { s.predicate@[1] } else { Val::X },
            if m.relevant_index@[2] { s.predicate@[2] } else { Val::X },
        ],
    }
}

/// Whether some rule of `rules` takes `s` to `t` through `port`.
pub open spec fn some_step(rules: Seq<Rule>, port: Option<PortId>, s: StateSet, t: StateSet) -> bool {
    exists|k: int| 0 <= k < rules.len() && rules[k].port == port && #[trigger] applies_to(rules[k], s, t)
}

/// Whether a rule of the simplified automaton with port `p` takes `s` to a state whose
/// masked form is `t`.
pub open spec fn atomic_match(atomic: Rbpa, p: PortId, s: StateSet, t: StateSet) -> bool {
    exists|k: int, u: StateSet|
        0 <= k < atomic.rules@.len() && atomic.rules@[k].port == Some(p) && #[trigger] applies_to(atomic.rules@[k], s, u)
            && masked(atomic.mask, u) == t
}

/// Whether `steps` is a run of `rules` from `start`.
pub open spec fn is_run(rules: Seq<Rule>, start: StateSet, steps: Seq<(Option<PortId>, StateSet)>) -> bool {
    forall|i: int|
        0 <= i < steps.len() ==> some_step(
            rules,
            (#[trigger] steps[i]).0,
            if i == 0 {
                start
            } else {
                steps[i - 1].1
            },
            steps[i].1,
        )
}

impl StateMask {
    pub fn mask_exact(&self, state: StateSet) -> (r: StateSet)
        ensures
            r == masked(*self, state),
    {
        let r = self.mask(state);
        proof {
            assert(r.predicate =~= masked(*self, state).predicate) by {
                assert(r.at(0) == masked(*self, state).predicate@[0]);
                assert(r.at(1) == masked(*self, state).predicate@[1]);
                assert(r.at(2) == masked(*self, state).predicate@[2]);
            }
        }
        r
    }
}

/// Whether `asteps` is a run of the simplified automaton from `start`, each step
/// matching to a masked state.
pub open spec fn is_atomic_run(atomic: Rbpa, start: StateSet, asteps: Seq<(PortId, StateSet)>) -> bool {
    forall|i: int|
        0 <= i < asteps.len() ==> atomic_match(
            atomic,
            (#[trigger] asteps[i]).0,
            if i == 0 {
                start
            } else {
                asteps[i - 1].1
            },
            asteps[i].1,
        )
}

/// The steps of `steps` at a port of `ports`, in order, each with its port and its state
/// masked by `mask`: what the simplified automaton must match.
pub open spec fn kept_steps(steps: Seq<(Option<PortId>, StateSet)>, ports: Set<PortId>, mask: StateMask) -> Seq<
    (PortId, StateSet),
>
    decreases steps.len(),
{
    if steps.len() == 0 {
        Seq::empty()
    } else {
        let before = kept_steps(steps.drop_last(), ports, mask);
        match steps.last().0 {
            Some(p) => if ports.contains(p) {
                before.push((p, masked(mask, steps.last().1)))
            } else {
                before
            },
            None => before,
        }
    }
}

/// The last state of a run from `start`.
pub open spec fn last_state<P>(start: StateSet, steps: Seq<(P, StateSet)>) -> StateSet {
    if steps.len() == 0 {
        start
    } else {
        steps.last().1
    }
}

/// The first rule, in the order `order`, that applies to `s`, with the state it leaves.
fn first_applicable(rules: &Vec<Rule>, order: &Vec<usize>, s: &StateSet) -> (r: Option<(usize, StateSet)>)
    requires
        forall|i: int| 0 <= i < order@.len() ==> #[trigger] order@[i] < rules@.len(),
    ensures
        r matches Some((k, t)) ==> k < rules@.len() && applies_to(rules@[k as int], *s, t),
        r is None ==> forall|i: int, t: StateSet|
            0 <= i < order@.len() ==> !#[trigger] applies_to(rules@[order@[i] as int], *s, t),
{
    let mut k: usize = 0;
    while k < order.len()
        invariant
            forall|i: int| 0 <= i < order@.len() ==> #[trigger] order@[i] < rules@.len(),
            k <= order@.len(),
            forall|i: int, t: StateSet| 0 <= i < k ==> !#[trigger] applies_to(rules@[order@[i] as int], *s, t),
        decreases order@.len() - k,
    {
        let idx = order[k];
        match rules[idx].apply(s) {
            Some(t) => {
                return Some((idx, t));
            },
            None => {},
        }
        k += 1;
    }
    None
}

/// The first rule of `atomic` with port `p` that takes `s` to a state whose masked form
/// is `target`, with that masked state.
fn match_atomic(atomic: &Rbpa, p: PortId, s: &StateSet, target: &StateSet) -> (r: Option<StateSet>)
    ensures
        r matches Some(t) ==> t == *target && atomic_match(*atomic, p, *s, t),
        r is None ==> !atomic_match(*atomic, p, *s, *target),
{
    let n = atomic.rules.len();
    let mut k: usize = 0;
    while k < n
        invariant
            n == atomic.rules@.len(),
            k <= n,
            forall|j: int, u: StateSet|
                0 <= j < k && atomic.rules@[j].port == Some(p) && #[trigger] applies_to(atomic.rules@[j], *s, u)
                    ==> masked(atomic.mask, u) != *target,
        decreases n - k,
    {
        let rule = &atomic.rules[k];
        if rule.port == Some(p) {
            match rule.apply(s) {
                Some(u) => {
                    let m = atomic.mask.mask_exact(u);
                    if same_state(&m, target) {
                        proof {
                            assert(applies_to(atomic.rules@[k as int], *s, u));
                            assert(masked(atomic.mask, u) == m);
                        }
                        return Some(m);
                    }
                    proof {
                        assert forall|v: StateSet| #[trigger] applies_to(atomic.rules@[k as int], *s, v) implies v == u by {
                            assert(v.predicate =~= u.predicate) by {
                                assert(v.at(0) == u.at(0));
                                assert(v.at(1) == u.at(1));
                                assert(v.at(2) == u.at(2));
                            }
                        }
                    }
                },
                None => {},
            }
        }
        k += 1;
    }
    None
}

/// Runs the full automaton `rba` from `state` for up to [`RUN_STEPS`] steps, each
/// step taking the first applicable rule in a freshly shuffled order. Every step at a
/// port of `atomic_ports` must be matched by a rule of `atomic` with that port whose
/// result, masked, is the full automaton's state masked the same way; the run stops at the
/// first step that has no such match, or when no rule applies.
#[verifier::rlimit(60)]
pub fn pair_test(state: StateSet, rba: &Rbpa, atomic: &Rbpa, atomic_ports: &PortSet) -> (run: PairRun)
    ensures
        is_run(rba.rules@, state, run.steps@),
        is_atomic_run(*atomic, state, run.atomic_steps@),
        run.end != PairEnd::FailedToMatch ==> run.atomic_steps@ == kept_steps(
            run.steps@,
            port_set_contents(*atomic_ports),
            atomic.mask,
        ),
        run.end == PairEnd::FailedToMatch ==> run.atomic_steps@ == kept_steps(
            run.steps@.drop_last(),
            port_set_contents(*atomic_ports),
            atomic.mask,
        ),
        run.steps@.len() <= RUN_STEPS,
        run.end == PairEnd::Completed ==> run.steps@.len() == RUN_STEPS,
        run.end == PairEnd::Stuck ==> forall|k: int, t: StateSet|
            0 <= k < rba.rules@.len() ==> !#[trigger] applies_to(rba.rules@[k], last_state(state, run.steps@), t),
        run.end == PairEnd::FailedToMatch ==> {
            &&& run.steps@.len() > 0
            &&& run.steps@.last().0 matches Some(p)
            &&& port_set_contents(*atomic_ports).contains(p)
            &&& !atomic_match(
                *atomic,
                p,
                last_state(state, run.atomic_steps@),
                masked(atomic.mask, run.steps@.last().1),
            )
        },
{
    let n = rba.rules.len();
    let mut try_order: Vec<usize> = Vec::new();
    let mut q: usize = 0;
    while q < n
        invariant
            q <= n,
            try_order@ == Seq::new(q as nat, |i: int| i as usize),
        decreases n - q,
    {
        try_order.push(q);
        q += 1;
        assert(try_order@ =~= Seq::new(q as nat, |i: int| i as usize));
    }
    proof {
        assert forall|x: usize| x < n implies #[trigger] try_order@.contains(x) by {
            assert(try_order@[x as int] == x);
        }
    }
    let mut cur = state;
    let mut atomic_state = state;
    let mut steps: Vec<(Option<PortId>, StateSet)> = Vec::new();
    let mut atomic_steps: Vec<(PortId, StateSet)> = Vec::new();
    let mut end = PairEnd::Completed;
    let mut stopped = false;
    let mut round: usize = 0;
    while round < RUN_STEPS && !stopped
        invariant
            n == rba.rules@.len(),
            try_order@.len() == n,
            forall|i: int| 0 <= i < n ==> #[trigger] try_order@[i] < n,
            forall|x: usize| x < n ==> #[trigger] try_order@.contains(x),
            round <= RUN_STEPS,
            steps@.len() <= round,
            !stopped ==> steps@.len() == round && end == PairEnd::Completed,
            is_run(rba.rules@, state, steps@),
            is_atomic_run(*atomic, state, atomic_steps@),
            end != PairEnd::FailedToMatch ==> atomic_steps@ == kept_steps(
                steps@,
                port_set_contents(*atomic_ports),
                atomic.mask,
            ),
            end == PairEnd::FailedToMatch ==> steps@.len() > 0 && atomic_steps@ == kept_steps(
                steps@.drop_last(),
                port_set_contents(*atomic_ports),
                atomic.mask,
            ),
            cur == last_state(state, steps@),
            atomic_state == last_state(state, atomic_steps@),
            stopped ==> end != PairEnd::Completed,
            end == PairEnd::Stuck ==> forall|k: int, t: StateSet|
                0 <= k < n ==> !#[trigger] applies_to(rba.rules@[k], cur, t),
            end == PairEnd::FailedToMatch ==> {
                &&& steps@.len() > 0
                &&& steps@.last().0 matches Some(p)
                &&& port_set_contents(*atomic_ports).contains(p)
                &&& !atomic_match(*atomic, p, atomic_state, masked(atomic.mask, steps@.last().1))
            },
        decreases RUN_STEPS - round,
    {
        let ghost before = try_order@;
        shuffle_order(&mut try_order);
        proof {
            before.to_multiset_ensures();
            try_order@.to_multiset_ensures();
            assert forall|i: int| 0 <= i < n implies #[trigger] try_order@[i] < n by {
                let x = try_order@[i];
                assert(try_order@.contains(x));
                assert(try_order@.to_multiset().count(x) > 0);
                assert(before.to_multiset().count(x) > 0);
                assert(before.contains(x));
            }
            assert forall|x: usize| x < n implies #[trigger] try_order@.contains(x) by {
                assert(before.contains(x));
                assert(before.to_multiset().count(x) > 0);
                assert(try_order@.to_multiset().count(x) > 0);
                assert(try_order@.contains(x));
            }
        }
        match first_applicable(&rba.rules, &try_order, &cur) {
            None => {
                proof {
                    assert forall|k: int, t: StateSet| 0 <= k < n implies !#[trigger] applies_to(rba.rules@[k], cur, t) by {
                        assert(try_order@.contains(k as usize));
                        let w = choose|w: int| 0 <= w < try_order@.len() && try_order@[w] == k as usize;
                        assert(!applies_to(rba.rules@[try_order@[w] as int], cur, t));
                    }
                }
                end = PairEnd::Stuck;
                stopped = true;
            },
            Some((idx, new_state)) => {
                let port = rba.rules[idx].port;
                let ghost prev_steps = steps@;
                steps.push((port, new_state));
                proof {
                    assert forall|i: int| 0 <= i < steps@.len() implies some_step(
                        rba.rules@,
                        (#[trigger] steps@[i]).0,
                        if i == 0 {
                            state
                        } else {
                            steps@[i - 1].1
                        },
                        steps@[i].1,
                    ) by {
                        if i < prev_steps.len() {
                            assert(steps@[i] == prev_steps[i]);
                            if i > 0 {
                                assert(steps@[i - 1] == prev_steps[i - 1]);
                            }
                        } else {
                            assert(applies_to(rba.rules@[idx as int], cur, new_state));
                        }
                    }
                }
                cur = new_state;
                proof {
                    assert(steps@.drop_last() =~= prev_steps);
                }
                match port {
                    Some(p) => {
                        if atomic_ports.contains(p) {
                            let target = atomic.mask.mask_exact(new_state);
                            match match_atomic(atomic, p, &atomic_state, &target) {
                                Some(m) => {
                                    let ghost prev_asteps = atomic_steps@;
                                    atomic_steps.push((p, m));
                                    proof {
                                        assert forall|i: int| 0 <= i < atomic_steps@.len() implies atomic_match(
                                            *atomic,
                                            (#[trigger] atomic_steps@[i]).0,
                                            if i == 0 {
                                                state
                                            } else {
                                                atomic_steps@[i - 1].1
                                            },
                                            atomic_steps@[i].1,
                                        ) by {
                                            if i < prev_asteps.len() {
                                                assert(atomic_steps@[i] == prev_asteps[i]);
                                                if i > 0 {
                                                    assert(atomic_steps@[i - 1] == prev_asteps[i - 1]);
                                                }
                                            }
                                        }
                                    }
                                    atomic_state = m;
                                },
                                None => {
                                    end = PairEnd::FailedToMatch;
                                    stopped = true;
                                },
                            }
                        }
                    },
                    None => {},
                }
            },
        }
        round += 1;
    }
    PairRun { steps, atomic_steps, end }
}

} // verus!
