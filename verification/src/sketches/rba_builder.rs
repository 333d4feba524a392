//! An earlier form of the guarded commands: states whose cells may be unknown, commands
//! that write, keep or forget each cell, and the states that a state reaches.
use crate::rba_preprocess::PortSet;
use vstd::prelude::*;

verus! {

pub type PortId = u32;

/// What a command does to a cell.
#[derive(Debug, Copy, Clone, Eq, PartialEq, Hash, Structural)]
pub enum AssignVal {
    /// Writes true.
    T,
    /// Writes false.
    F,
    /// Keeps the cell's value.
    G,
    /// Forgets the cell's value.
    U,
}

/// A state: for each of the three cells, its value where it is known.
#[derive(Debug, Copy, Clone, Eq, PartialEq, Hash)]
pub struct ConcretePred {
    pub known: [Option<bool>; 3],
}

/// What a command does to each of the three cells.
#[derive(Debug, Copy, Clone, Hash)]
pub struct SymbolicPred {
    pub values: [AssignVal; 3],
}

/// The known values with the given pairs written in, in order, over nothing known.
pub open spec fn known_written(pairs: Seq<(usize, bool)>) -> Seq<Option<bool>>
    decreases pairs.len(),
{
    if pairs.len() == 0 {
        seq![None, None, None]
    } else {
        known_written(pairs.drop_last()).update(pairs.last().0 as int, Some(pairs.last().1))
    }
}

/// The cell commands with the given pairs written in, in order, over "keep" everywhere.
pub open spec fn values_written(pairs: Seq<(usize, AssignVal)>) -> Seq<AssignVal>
    decreases pairs.len(),
{
    if pairs.len() == 0 {
        seq![AssignVal::G, AssignVal::G, AssignVal::G]
    } else {
        values_written(pairs.drop_last()).update(pairs.last().0 as int, pairs.last().1)
    }
}

/// Whether no cell is known in both states with different values.
pub open spec fn pred_compatible(a: ConcretePred, b: ConcretePred) -> bool {
    forall|i: int|
        0 <= i < 3 ==> !(#[trigger] a.known@[i] is Some && b.known@[i] is Some && a.known@[i] != b.known@[i])
}

/// A cell's value after the command `a`.
pub open spec fn assign_at(a: AssignVal, v: Option<bool>) -> Option<bool> {
    match a {
        AssignVal::G => v,
        AssignVal::T => Some(true),
        AssignVal::F => Some(false),
        AssignVal::U => None,
    }
}

/// The state after applying `s` to `p`.
pub open spec fn applied(s: SymbolicPred, p: ConcretePred) -> ConcretePred {
    ConcretePred {
        known: [
            assign_at(s.values@[0], p.known@[0]),
            assign_at(s.values@[1], p.known@[1]),
            assign_at(s.values@[2], p.known@[2]),
        ],
    }
}

impl ConcretePred {
    /// The state that knows the given cells (a later pair for a cell wins).
    pub fn new(pairs: Vec<(usize, bool)>) -> (r: Self)
        requires
            forall|i: int| 0 <= i < pairs@.len() ==> #[trigger] pairs@[i].0 < 3,
        ensures
            r.known@ == known_written(pairs@),
    {
        let mut known: [Option<bool>; 3] = [None, None, None];
        let mut i: usize = 0;
        while i < pairs.len()
            invariant
                i <= pairs@.len(),
                forall|q: int| 0 <= q < pairs@.len() ==> #[trigger] pairs@[q].0 < 3,
                known@ == known_written(pairs@.take(i as int)),
            decreases pairs@.len() - i,
        {
            let (k, v) = pairs[i];
            known[k] = Some(v);
            proof {
                assert(pairs@.take(i + 1).drop_last() =~= pairs@.take(i as int));
            }
            i += 1;
        }
        proof {
            assert(pairs@.take(pairs@.len() as int) =~= pairs@);
        }
        ConcretePred { known }
    }

    /// Whether the two states agree on every cell that both know.
    pub fn compatible(&self, other: &Self) -> (r: bool)
        ensures
            r == pred_compatible(*self, *other),
    {
        let mut i: usize = 0;
        while i < 3
            invariant
                i <= 3,
                forall|j: int|
                    0 <= j < i ==> !(#[trigger] self.known@[j] is Some && other.known@[j] is Some && self.known@[j]
                        != other.known@[j]),
            decreases 3 - i,
        {
            match (self.known[i], other.known[i]) {
                (Some(x), Some(y)) => {
                    if x != y {
                        return false;
                    }
                },
                _ => {},
            }
            i += 1;
        }
        true
    }
}

impl SymbolicPred {
    /// The command with the given cell commands ("keep" elsewhere; a later pair wins).
    pub fn new(pairs: Vec<(usize, AssignVal)>) -> (r: Self)
        requires
            forall|i: int| 0 <= i < pairs@.len() ==> #[trigger] pairs@[i].0 < 3,
        ensures
            r.values@ == values_written(pairs@),
    {
        let mut values: [AssignVal; 3] = [AssignVal::G, AssignVal::G, AssignVal::G];
        let mut i: usize = 0;
        while i < pairs.len()
            invariant
                i <= pairs@.len(),
                forall|q: int| 0 <= q < pairs@.len() ==> #[trigger] pairs@[q].0 < 3,
                values@ == values_written(pairs@.take(i as int)),
            decreases pairs@.len() - i,
        {
            let (k, v) = pairs[i];
            values[k] = v;
            proof {
                assert(pairs@.take(i + 1).drop_last() =~= pairs@.take(i as int));
            }
            i += 1;
        }
        proof {
            assert(pairs@.take(pairs@.len() as int) =~= pairs@);
        }
        SymbolicPred { values }
    }

    /// The state after the command.
    pub fn apply_to(&self, state: &ConcretePred) -> (r: ConcretePred)
        ensures
            r == applied(*self, *state),
    {
        let mut new = *state;
        let mut i: usize = 0;
        while i < 3
            invariant
                i <= 3,
                forall|j: int|
                    0 <= j < 3 ==> #[trigger] new.known@[j] == (if j < i {
                        assign_at(self.values@[j], state.known@[j])
                    } else {
                        state.known@[j]
                    }),
            decreases 3 - i,
        {
            match self.values[i] {
                AssignVal::G => {},
                AssignVal::T => {
                    new.known[i] = Some(true);
                },
                AssignVal::F => {
                    new.known[i] = Some(false);
                },
                AssignVal::U => {
                    new.known[i] = None;
                },
            }
            i += 1;
        }
        proof {
            let want = applied(*self, *state);
            assert(new.known@[0] == want.known@[0]);
            assert(new.known@[1] == want.known@[1]);
            assert(new.known@[2] == want.known@[2]);
            assert(new.known =~= want.known);
        }
        new
    }
}

/// A command: from a state compatible with `input`, move through `involved` and apply
/// `output`.
#[derive(Debug)]
pub struct Gcmd {
    pub input: ConcretePred,
    pub involved: PortId,
    pub output: SymbolicPred,
}

impl Gcmd {
    pub fn new(input: ConcretePred, involved: PortId, output: SymbolicPred) -> (r: Self)
        ensures
            r.input == input,
            r.involved == involved,
            r.output == output,
    {
        Gcmd { input, involved, output }
    }
}

/// Where a command leads.
#[derive(Debug, Clone, Copy)]
pub struct Branch {
    pub port: PortId,
    pub dest: ConcretePred,
}

/// A rule of an automaton: from a state compatible with `guard`, move through `ports`
/// and apply `action`.
pub struct Rule {
    pub guard: ConcretePred,
    pub ports: PortSet,
    pub action: SymbolicPred,
}

/// Whether one rule takes `s` to `t`.
pub open spec fn successor(rules: Seq<Rule>, s: ConcretePred, t: ConcretePred) -> bool {
    exists|k: int| 0 <= k < rules.len() && pred_compatible(s, #[trigger] rules[k].guard) && t == applied(rules[k].action, s)
}

/// Whether `p` is a run of the rules from `s`: one step to `p[0]`, then one step from
/// each state of `p` to the next.
pub open spec fn is_run(rules: Seq<Rule>, s: ConcretePred, p: Seq<ConcretePred>) -> bool {
    &&& p.len() >= 1
    &&& successor(rules, s, p[0])
    &&& forall|i: int, j: int| #![trigger p[i], p[j]] 0 <= i && j == i + 1 && j < p.len() ==> successor(rules, p[i], p[j])
}

/// Whether one or more steps of the rules take `s` to `t`.
pub open spec fn reachable(rules: Seq<Rule>, s: ConcretePred, t: ConcretePred) -> bool {
    exists|p: Seq<ConcretePred>| #[trigger] is_run(rules, s, p) && p.last() == t
}

/// What a state reaches, one more step of the rules reaches too.
pub proof fn law_reachable_step(rules: Seq<Rule>, s: ConcretePred, t: ConcretePred, u: ConcretePred)
    requires
        reachable(rules, s, t),
        successor(rules, t, u),
    ensures
        reachable(rules, s, u),
{
    let p = choose|p: Seq<ConcretePred>| #[trigger] is_run(rules, s, p) && p.last() == t;
    let q = p.push(u);
    assert forall|a: int, b: int| #![trigger q[a], q[b]] 0 <= a && b == a + 1 && b < q.len() implies successor(
        rules,
        q[a],
        q[b],
    ) by {
        if b < p.len() {
            assert(q[a] == p[a] && q[b] == p[b]);
        }
    }
    assert(is_run(rules, s, q));
}

/// A cell's value as a digit: unknown, false, true.
pub open spec fn digit(v: Option<bool>) -> int {
    match v {
        None => 0,
        Some(false) => 1,
        Some(true) => 2,
    }
}

/// A state as a number below 27.
pub open spec fn code(p: ConcretePred) -> int {
    digit(p.known@[0]) + 3 * digit(p.known@[1]) + 9 * digit(p.known@[2])
}

proof fn lemma_code_injective(a: ConcretePred, b: ConcretePred)
    requires
        code(a) == code(b),
    ensures
        a == b,
{
    assert(a.known@[0] == b.known@[0]);
    assert(a.known@[1] == b.known@[1]);
    assert(a.known@[2] == b.known@[2]);
    assert(a.known =~= b.known);
}

/// There are 27 states: a list of distinct states holds at most that many.
proof fn lemma_at_most_27(s: Seq<ConcretePred>)
    requires
        s.no_duplicates(),
    ensures
        s.len() <= 27,
{
    let codes = s.map_values(|p: ConcretePred| code(p));
    assert forall|i: int, j: int| 0 <= i < codes.len() && 0 <= j < codes.len() && i != j implies codes[i]
        != codes[j] by {
        if codes[i] == codes[j] {
            lemma_code_injective(s[i], s[j]);
        }
    }
    assert(codes.no_duplicates());
    codes.unique_seq_to_set();
    assert(codes.to_set().subset_of(vstd::set_lib::set_int_range(0, 27))) by {
        assert forall|x: int| codes.to_set().contains(x) implies vstd::set_lib::set_int_range(0, 27).contains(x) by {
            let i = choose|i: int| 0 <= i < codes.len() && codes[i] == x;
            assert(codes[i] == code(s[i]));
        }
    }
    vstd::set_lib::lemma_int_range(0, 27);
    vstd::set_lib::lemma_len_subset(codes.to_set(), vstd::set_lib::set_int_range(0, 27));
}

fn same_pred(a: &ConcretePred, b: &ConcretePred) -> (r: bool)
    ensures
        r == (*a == *b),
{
    let r = a.known[0] == b.known[0] && a.known[1] == b.known[1] && a.known[2] == b.known[2];
    proof {
        if r {
            assert(a.known =~= b.known);
        }
    }
    r
}

fn contains_pred(v: &Vec<ConcretePred>, p: &ConcretePred) -> (r: bool)
    ensures
        r == v@.contains(*p),
{
    let mut i: usize = 0;
    while i < v.len()
        invariant
            i <= v@.len(),
            forall|j: int| 0 <= j < i ==> v@[j] != *p,
        decreases v@.len() - i,
    {
        if same_pred(&v[i], p) {
            return true;
        }
        i += 1;
    }
    false
}

/// Adds to `res` the states one rule takes `u` to that it does not hold yet.
fn expand(u: &ConcretePred, rules: &[Rule], res: &mut Vec<ConcretePred>)
    requires
        old(res)@.no_duplicates(),
    ensures
        final(res)@.no_duplicates(),
        final(res)@.len() <= 27,
        old(res)@.len() <= final(res)@.len(),
        final(res)@.subrange(0, old(res)@.len() as int) == old(res)@,
        forall|j: int| old(res)@.len() <= j < final(res)@.len() ==> successor(rules@, *u, #[trigger] final(res)@[j]),
        forall|t: ConcretePred| successor(rules@, *u, t) ==> final(res)@.contains(t),
{
    let ghost start = res@;
    let mut k: usize = 0;
    while k < rules.len()
        invariant
            k <= rules@.len(),
            res@.no_duplicates(),
            res@.subrange(0, start.len() as int) == start,
            start.len() <= res@.len(),
            forall|j: int| start.len() <= j < res@.len() ==> successor(rules@, *u, #[trigger] res@[j]),
            forall|q: int|
                0 <= q < k && pred_compatible(*u, #[trigger] rules@[q].guard) ==> res@.contains(
                    applied(rules@[q].action, *u),
                ),
        decreases rules@.len() - k,
    {
        if u.compatible(&rules[k].guard) {
            let t = rules[k].action.apply_to(u);
            assert(successor(rules@, *u, t));
            if !contains_pred(res, &t) {
                let ghost before = res@;
                res.push(t);
                proof {
                    assert(res@.subrange(0, start.len() as int) =~= before.subrange(0, start.len() as int));
                    assert forall|q: int| 0 <= q < k && pred_compatible(*u, #[trigger] rules@[q].guard) implies res@.contains(
                        applied(rules@[q].action, *u),
                    ) by {
                        let w = choose|w: int| 0 <= w < before.len() && before[w] == applied(rules@[q].action, *u);
                        assert(res@[w] == before[w]);
                    }
                    assert(res@[before.len() as int] == t);
                }
            }
        }
        k += 1;
    }
    proof {
        lemma_at_most_27(res@);
        assert forall|t: ConcretePred| successor(rules@, *u, t) implies res@.contains(t) by {
            let q = choose|q: int| 0 <= q < rules@.len() && pred_compatible(*u, #[trigger] rules@[q].guard) && t == applied(
                rules@[q].action,
                *u,
            );
        }
    }
}

proof fn lemma_closed_holds_run(rules: Seq<Rule>, s: ConcretePred, res: Seq<ConcretePred>, p: Seq<ConcretePred>, k: int)
    requires
        forall|x: ConcretePred| successor(rules, s, x) ==> res.contains(x),
        forall|j: int, x: ConcretePred| 0 <= j < res.len() && #[trigger] successor(rules, res[j], x) ==> res.contains(x),
        is_run(rules, s, p),
        0 <= k < p.len(),
    ensures
        res.contains(p[k]),
    decreases k,
{
    if k > 0 {
        lemma_closed_holds_run(rules, s, res, p, k - 1);
        let j = choose|j: int| 0 <= j < res.len() && res[j] == p[k - 1];
        assert(successor(rules, p[k - 1], p[k]));
        assert(successor(rules, res[j], p[k]));
    }
}

/// The states that one or more steps of the rules take `state` to, each once.
pub fn internal_close(state: &ConcretePred, rules: &[Rule]) -> (r: Vec<ConcretePred>)
    ensures
        r@.no_duplicates(),
        forall|t: ConcretePred| r@.contains(t) <==> reachable(rules@, *state, t),
{
    let mut res: Vec<ConcretePred> = Vec::new();
    expand(state, rules, &mut res);
    proof {
        assert forall|j: int| 0 <= j < res@.len() implies reachable(rules@, *state, #[trigger] res@[j]) by {
            assert(is_run(rules@, *state, seq![res@[j]]));
        }
    }
    let mut i: usize = 0;
    while i < res.len()
        invariant
            res@.no_duplicates(),
            res@.len() <= 27,
            i <= res@.len(),
            forall|x: ConcretePred| successor(rules@, *state, x) ==> res@.contains(x),
            forall|j: int, x: ConcretePred| 0 <= j < i && #[trigger] successor(rules@, res@[j], x) ==> res@.contains(x),
            forall|j: int| 0 <= j < res@.len() ==> reachable(rules@, *state, #[trigger] res@[j]),
        decreases 27 - i,
    {
        let u = res[i];
        let ghost before = res@;
        expand(&u, rules, &mut res);
        proof {
            assert forall|x: ConcretePred| before.contains(x) implies res@.contains(x) by {
                let w = choose|w: int| 0 <= w < before.len() && before[w] == x;
                assert(res@.subrange(0, before.len() as int)[w] == x);
            }
            assert forall|j: int| 0 <= j < before.len() implies res@[j] == before[j] by {
                assert(res@.subrange(0, before.len() as int)[j] == before[j]);
            }
            assert(reachable(rules@, *state, u));
            assert forall|j: int| 0 <= j < res@.len() implies reachable(rules@, *state, #[trigger] res@[j]) by {
                if j >= before.len() {
                    law_reachable_step(rules@, *state, u, res@[j]);
                } else {
                    assert(res@[j] == before[j]);
                }
            }
            assert forall|x: ConcretePred| successor(rules@, *state, x) implies res@.contains(x) by {
                assert(before.contains(x));
            }
            assert forall|j: int, x: ConcretePred| 0 <= j < i + 1 && #[trigger] successor(rules@, res@[j], x) implies res@.contains(
                x,
            ) by {
                assert(res@[j] == before[j]);
                if j < i {
                    assert(successor(rules@, before[j], x));
                    assert(before.contains(x));
                } else {
                    assert(before[j] == u);
                }
            }
        }
        i += 1;
    }
    proof {
        assert forall|t: ConcretePred| reachable(rules@, *state, t) implies res@.contains(t) by {
            let p = choose|p: Seq<ConcretePred>| #[trigger] is_run(rules@, *state, p) && p.last() == t;
            lemma_closed_holds_run(rules@, *state, res@, p, p.len() - 1);
        }
        assert forall|t: ConcretePred| res@.contains(t) implies reachable(rules@, *state, t) by {
            let j = choose|j: int| 0 <= j < res@.len() && res@[j] == t;
        }
    }
    res
}

} // verus!
