//! The protocol coordinator: readiness and memory bookkeeping, and the choice of rules to fire.
use crate::bits::{lemma_and_bit, lemma_not_bit, lemma_or_bit, wbits, word_bit};
use crate::bitset::{and_source, difference_chunks, lemma_beyond, seq_has, set_chunks, AndIter, BitSet};
use crate::proto::collections::{loc_list_contents, port_info_map_contents};
use crate::proto::definition::{PortInfo, PortRole, TypeKey};
use crate::proto::collections::PortInfoMap;
use crate::proto::compile::{RunAction, RunRule};
use crate::proto::definition::{Formula, Term};
use crate::LocId;
use vstd::prelude::*;

verus! {

/// What occupies a location id at run time.
#[derive(Debug, Copy, Clone, PartialEq, Eq, Structural)]
pub enum SpaceKind {
    PoPu,
    PoGe,
    Memo,
    Unused,
}

/// The rule committed to, and how many tentative ports must still arrive before it fires.
#[derive(Debug, Copy, Clone, PartialEq, Eq, Structural)]
pub struct Commitment {
    pub rule_id: usize,
    pub awaiting: usize,
}

/// A port group waiting until every location of `state` is ready.
pub struct StateWaiter {
    pub state: BitSet,
    pub whom: LocId,
}

/// The coordination state of one protocol instance.
pub struct ProtoCore {
    pub rules: Vec<RunRule>,
    pub spaces: Vec<SpaceKind>,
    pub memory_bits: BitSet,
    pub ready: BitSet,
    pub commitment: Option<Commitment>,
    pub ready_tentative: BitSet,
    pub awaiting_states: Vec<StateWaiter>,
    pub unclaimed_ports: PortInfoMap,
}

/// Whether one chunk of readiness `mr` and memory `mv` satisfies one chunk of a guard
/// (`gr`: must be ready, `gv`: must be full).
pub open spec fn chunk_satisfies(mr: usize, mv: usize, gr: usize, gv: usize) -> bool {
    ((gr & gv) & !(mr & mv)) | ((gr & !gv) & !(mr & !mv)) == 0
}

/// Whether the memory and readiness chunks satisfy the guard of `rule`, over the chunk
/// indices present in all four bitsets.
pub open spec fn spec_is_ready(memory: Seq<usize>, ready: Seq<usize>, gr: Seq<usize>, gv: Seq<usize>) -> bool {
    forall|k: int|
        0 <= k < ready.len() && k < memory.len() && k < gr.len() && k < gv.len()
            ==> #[trigger] chunk_satisfies(ready[k], memory[k], gr[k], gv[k])
}

/// Memory chunks after a firing: over the common prefix, a bit under the mask takes the
/// assigned value (set where the value is 1, unset where it is 0) and every other bit
/// stays.
pub open spec fn assign_chunks(memory: Seq<usize>, vals: Seq<usize>, mask: Seq<usize>) -> Seq<usize> {
    Seq::new(
        memory.len(),
        |k: int|
            if k < vals.len() && k < mask.len() {
                (memory[k] | (vals[k] & mask[k])) & (vals[k] | !mask[k])
            } else {
                memory[k]
            },
    )
}

proof fn lemma_satisfies_bit(mr: usize, mv: usize, gr: usize, gv: usize, j: usize)
    requires
        j < usize::BITS,
    ensures
        word_bit(((gr & gv) & !(mr & mv)) | ((gr & !gv) & !(mr & !mv)), j) == (word_bit(gr, j)
            && !(word_bit(mr, j) && word_bit(mv, j) == word_bit(gv, j))),
{
    let x = ((gr & gv) & !(mr & mv)) | ((gr & !gv) & !(mr & !mv));
    assert(((x >> j) & 1usize == 1usize) == (((gr >> j) & 1usize == 1usize) && !(((mr >> j)
        & 1usize == 1usize) && (((mv >> j) & 1usize == 1usize) == ((gv >> j) & 1usize == 1usize)))))
        by (bit_vector)
        requires
            x == ((gr & gv) & !(mr & mv)) | ((gr & !gv) & !(mr & !mv)),
            j < usize::BITS,
    ;
}

/// A guard chunk is satisfied exactly when every bit it requires ready is ready, with
/// the required fullness.
pub proof fn lemma_chunk_satisfies_bits(mr: usize, mv: usize, gr: usize, gv: usize)
    ensures
        chunk_satisfies(mr, mv, gr, gv) <==> forall|j: usize|
            j < usize::BITS ==> (#[trigger] word_bit(gr, j) ==> (word_bit(mr, j) && word_bit(mv, j)
                == word_bit(gv, j))),
{
    let x = ((gr & gv) & !(mr & mv)) | ((gr & !gv) & !(mr & !mv));
    lemma_word_zero_iff(x);
    assert forall|j: usize| j < usize::BITS implies word_bit(x, j) == (word_bit(gr, j) && !(word_bit(
        mr,
        j,
    ) && word_bit(mv, j) == word_bit(gv, j))) by {
        lemma_satisfies_bit(mr, mv, gr, gv, j);
    }
}

/// A word is zero exactly when none of its bits is set.
pub proof fn lemma_word_zero_iff(x: usize)
    ensures
        x == 0 <==> forall|j: usize| j < usize::BITS ==> !#[trigger] word_bit(x, j),
    decreases x,
{
    if x == 0 {
        assert forall|j: usize| j < usize::BITS implies !#[trigger] word_bit(x, j) by {
            crate::bits::lemma_zero_has_no_bits(j);
        }
    } else if x & 1usize == 1usize {
        assert(word_bit(x, 0)) by (bit_vector)
            requires
                x & 1usize == 1usize,
        ;
    } else {
        let y = x >> 1usize;
        assert(y != 0 && y < x) by (bit_vector)
            requires
                x != 0,
                x & 1usize != 1usize,
                y == x >> 1usize,
        ;
        lemma_word_zero_iff(y);
        let j = choose|j: usize| j < usize::BITS && #[trigger] word_bit(y, j);
        assert(j + 1 < usize::BITS && word_bit(x, (j + 1) as usize)) by (bit_vector)
            requires
                j < usize::BITS,
                (y >> j) & 1usize == 1usize,
                y == x >> 1usize,
        ;
    }
}

/// Whether the memory and readiness bitsets satisfy the guard of `rule`: every location
/// that must be ready is ready, and is full exactly when the guard wants it full.
/// Only the chunk indices present in all four bitsets are compared.
pub fn is_ready(memory: &BitSet, ready: &BitSet, rule: &RunRule) -> (r: bool)
    ensures
        r == spec_is_ready(memory@, ready@, rule.guard_ready@, rule.guard_full@),
{
    let mut k: usize = 0;
    while k < ready.data.len() && k < memory.data.len() && k < rule.guard_ready.data.len() && k
        < rule.guard_full.data.len()
        invariant
            k <= ready@.len(),
            forall|j: int| 0 <= j < k ==> #[trigger] chunk_satisfies(ready@[j], memory@[j], rule.guard_ready@[j], rule.guard_full@[j]),
        decreases ready@.len() - k,
    {
        let mr = ready.data[k];
        let mv = memory.data[k];
        let gr = rule.guard_ready.data[k];
        let gv = rule.guard_full.data[k];
        let should_be_pos = gr & gv;
        let should_be_neg = gr & !gv;
        let are_pos = mr & mv;
        let are_neg = mr & !mv;
        let false_neg = should_be_pos & !(are_pos);
        let false_pos = should_be_neg & !(are_neg);
        if (false_neg | false_pos) != 0 {
            assert(!chunk_satisfies(ready@[k as int], memory@[k as int], rule.guard_ready@[k as int], rule.guard_full@[k as int]));
            return false;
        }
        k += 1;
    }
    true
}

/// Makes not ready every location the rule needs ready (over the common chunk prefix).
pub fn subtract_readiness(ready: &mut BitSet, rule: &RunRule)
    ensures
        final(ready)@ == difference_chunks(old(ready)@, rule.guard_ready@),
{
    ready.difference_with(&rule.guard_ready);
}

/// Updates the memory bits with the effect of firing `rule`: a bit under the assignment
/// mask takes its assigned value; the other bits stay.
pub fn assign_memory_bits(memory: &mut BitSet, rule: &RunRule)
    ensures
        final(memory)@ == assign_chunks(old(memory)@, rule.assign_vals@, rule.assign_mask@),
{
    let mut k: usize = 0;
    while k < memory.data.len() && k < rule.assign_vals.data.len() && k < rule.assign_mask.data.len()
        invariant
            memory@.len() == old(memory)@.len(),
            k <= memory@.len(),
            forall|j: int| 0 <= j < memory@.len() ==> #[trigger] memory@[j] == (if j < k {
                assign_chunks(old(memory)@, rule.assign_vals@, rule.assign_mask@)[j]
            } else {
                old(memory)@[j]
            }),
        decreases memory@.len() - k,
    {
        let av = rule.assign_vals.data[k];
        let am = rule.assign_mask.data[k];
        let mv = memory.data[k];
        let mv = mv | (av & am);
        let mv = mv & (av | !am);
        memory.data.set(k, mv);
        k += 1;
    }
    assert(memory@ == assign_chunks(old(memory)@, rule.assign_vals@, rule.assign_mask@));
}

/// Whether a guard formula can be evaluated from memory fullness alone.
pub open spec fn runnable(f: Formula) -> bool
    decreases f,
{
    match f {
        Formula::True => true,
        Formula::MemIsNull(_) => true,
        Formula::And(v) => forall|i: int| 0 <= i < v@.len() ==> runnable(#[trigger] v@[i]),
        Formula::Or(v) => forall|i: int| 0 <= i < v@.len() ==> runnable(#[trigger] v@[i]),
        Formula::NoneOf(v) => forall|i: int| 0 <= i < v@.len() ==> runnable(#[trigger] v@[i]),
        Formula::TermVal(Term::Boolean(b)) => runnable(*b),
        _ => false,
    }
}

/// Value of a runnable guard formula for the memory bits `mem`. Note that `And` holds
/// when *not all* of its parts hold.
pub open spec fn spec_eval(f: Formula, mem: Seq<usize>) -> bool
    decreases f,
{
    match f {
        Formula::True => true,
        Formula::MemIsNull(a) => !seq_has(mem, a as int),
        Formula::NoneOf(v) => !exists|i: int| 0 <= i < v@.len() && spec_eval(#[trigger] v@[i], mem),
        Formula::And(v) => !forall|i: int| 0 <= i < v@.len() ==> spec_eval(#[trigger] v@[i], mem),
        Formula::Or(v) => exists|i: int| 0 <= i < v@.len() && spec_eval(#[trigger] v@[i], mem),
        Formula::TermVal(Term::Boolean(b)) => spec_eval(*b, mem),
        _ => false,
    }
}

/// A `MemIsNull(a)` guard holds exactly when memory cell `a` is empty: its bit is clear
/// in the memory bits (as [`BitSet::test`] reads them). A guard wrapped as a boolean term
/// holds exactly when the guard does.
pub proof fn law_mem_is_null(a: LocId, mem: Seq<usize>, f: Formula)
    ensures
        spec_eval(Formula::MemIsNull(a), mem) == !seq_has(mem, a as int),
        spec_eval(Formula::TermVal(Term::Boolean(Box::new(f))), mem) == spec_eval(f, mem),
        spec_eval(Formula::True, mem),
{
}

/// How a guard's connectives relate: `NoneOf` holds exactly when `Or` of the same parts
/// does not; `Or` holds when some part holds; and `And`, as guards evaluate it, holds
/// when some part fails (it is "not all").
pub proof fn law_guard_connectives(v: Vec<Formula>, mem: Seq<usize>)
    ensures
        spec_eval(Formula::NoneOf(v), mem) == !spec_eval(Formula::Or(v), mem),
        spec_eval(Formula::Or(v), mem) == (exists|i: int| 0 <= i < v@.len() && spec_eval(#[trigger] v@[i], mem)),
        spec_eval(Formula::And(v), mem) == (exists|i: int| 0 <= i < v@.len() && !spec_eval(#[trigger] v@[i], mem)),
        v@.len() == 0 ==> !spec_eval(Formula::Or(v), mem) && spec_eval(Formula::NoneOf(v), mem) && !spec_eval(
            Formula::And(v),
            mem,
        ),
{
    let or_f = Formula::Or(v);
    let none_f = Formula::NoneOf(v);
    let and_f = Formula::And(v);
    assert(or_f matches Formula::Or(w) && w == v);
    assert(none_f matches Formula::NoneOf(w) && w == v);
    assert(and_f matches Formula::And(w) && w == v);
    assert(spec_eval(or_f, mem) == (exists|i: int| 0 <= i < v@.len() && spec_eval(#[trigger] v@[i], mem)));
    assert(spec_eval(none_f, mem) == !(exists|i: int| 0 <= i < v@.len() && spec_eval(#[trigger] v@[i], mem)));
    assert(spec_eval(and_f, mem) == !(forall|i: int| 0 <= i < v@.len() ==> spec_eval(#[trigger] v@[i], mem)));
}

/// Evaluates a runnable guard formula against the memory bits.
pub fn eval_formula(formula: &Formula, mem: &BitSet) -> (r: bool)
    requires
        runnable(*formula),
    ensures
        r == spec_eval(*formula, mem@),
    decreases formula,
{
    match formula {
        Formula::True => true,
        Formula::MemIsNull(a) => !mem.test(*a),
        Formula::NoneOf(v) => !eval_any(v, mem),
        Formula::And(v) => !eval_all(v, mem),
        Formula::Or(v) => eval_any(v, mem),
        Formula::TermVal(Term::Boolean(b)) => eval_formula(b, mem),
        _ => false,
    }
}

/// Whether some formula of `v` holds.
fn eval_any(v: &Vec<Formula>, mem: &BitSet) -> (r: bool)
    requires
        forall|i: int| 0 <= i < v@.len() ==> runnable(#[trigger] v@[i]),
    ensures
        r == exists|i: int| 0 <= i < v@.len() && spec_eval(#[trigger] v@[i], mem@),
    decreases v,
{
    let mut k: usize = 0;
    while k < v.len()
        invariant
            k <= v@.len(),
            forall|i: int| 0 <= i < v@.len() ==> runnable(#[trigger] v@[i]),
            forall|i: int| 0 <= i < k ==> !spec_eval(#[trigger] v@[i], mem@),
        decreases v@.len() - k,
    {
        if eval_formula(&v[k], mem) {
            return true;
        }
        k += 1;
    }
    false
}

/// Whether every formula of `v` holds.
fn eval_all(v: &Vec<Formula>, mem: &BitSet) -> (r: bool)
    requires
        forall|i: int| 0 <= i < v@.len() ==> runnable(#[trigger] v@[i]),
    ensures
        r == forall|i: int| 0 <= i < v@.len() ==> spec_eval(#[trigger] v@[i], mem@),
    decreases v,
{
    let mut k: usize = 0;
    while k < v.len()
        invariant
            k <= v@.len(),
            forall|i: int| 0 <= i < v@.len() ==> runnable(#[trigger] v@[i]),
            forall|i: int| 0 <= i < k ==> spec_eval(#[trigger] v@[i], mem@),
        decreases v@.len() - k,
    {
        if !eval_formula(&v[k], mem) {
            return false;
        }
        k += 1;
    }
    true
}

/// Message telling a waiting port that nothing is to be done.
pub const NOTHING_MSG: usize = usize::MAX;

/// What must happen to complete one data movement of a fired rule.
/// - the datum of `putter` (a memory cell when `mem_putter`) reaches every memory cell in
///   `mem_getters` (which never holds the putter itself);
/// - `move_into_self`: the memory putter is also its own getter, so it keeps the datum;
/// - when `port_getters` is not empty, each of them is told `putter`;
/// - `putter_reply`: a message for the putter port (how many memory cells moved its datum);
/// - `make_empty`: the memory putter gives up its datum now.
#[derive(Debug)]
pub struct ActionPlan {
    pub putter: LocId,
    pub mem_putter: bool,
    pub move_into_self: bool,
    pub mem_getters: Vec<LocId>,
    pub port_getters: Vec<LocId>,
    pub putter_reply: Option<usize>,
    pub make_empty: bool,
}

/// One thing for the port threads to do after the coordinator decided.
#[derive(Debug)]
pub enum Effect {
    /// Put `msg` in the message box of location `to`.
    Send { to: LocId, msg: usize },
    /// Carry out a data movement.
    Act(ActionPlan),
}

/// How an attempt to fire a rule ended.
#[derive(Debug, Copy, Clone, PartialEq, Eq, Structural)]
pub enum StepOutcome {
    /// No rule can fire.
    Quiet,
    /// The rule waits for tentative ports before it fires.
    Committed { rule_id: usize },
    /// The rule fired.
    Fired { rule_id: usize },
}

/// A port can be claimed once: after a claim that got it, the port is no longer among
/// the unclaimed ones, so claiming it again answers `NotUnclaimed`.
pub proof fn law_claim_once(ports: Map<usize, PortInfo>, id: LocId)
    requires
        ports.contains_key(id),
    ensures
        !ports.remove(id).contains_key(id),
{
}

/// Claiming a port and unclaiming it with the information it had restores the unclaimed
/// ports exactly.
pub proof fn law_claim_unclaim_roundtrip(ports: Map<usize, PortInfo>, id: LocId)
    requires
        ports.contains_key(id),
    ensures
        ports.remove(id).insert(id, ports[id]) == ports,
{
    assert(ports.remove(id).insert(id, ports[id]) =~= ports);
}

/// Result of claiming a port.
#[derive(Debug, Copy, Clone, PartialEq, Eq, Structural)]
pub enum ClaimResult {
    GotGetter(LocId),
    GotPutter(LocId),
    NotUnclaimed,
    TypeMismatch,
}

impl ClaimResult {
    /// Whether no port object was obtained.
    pub fn claimed_nothing(&self) -> (r: bool)
        ensures
            r == (*self is NotUnclaimed || *self is TypeMismatch),
    {
        match self {
            ClaimResult::GotGetter(_) | ClaimResult::GotPutter(_) => false,
            ClaimResult::NotUnclaimed | ClaimResult::TypeMismatch => true,
        }
    }
}

/// `s` after setting, in order, each bit of `ids`.
pub open spec fn set_many(s: Seq<usize>, ids: Seq<usize>) -> Seq<usize>
    decreases ids.len(),
{
    if ids.len() == 0 {
        s
    } else {
        set_chunks(set_many(s, ids.drop_last()), ids.last(), true)
    }
}

/// `ids` without the occurrences of `p`.
pub open spec fn without(ids: Seq<usize>, p: usize) -> Seq<usize>
    decreases ids.len(),
{
    if ids.len() == 0 {
        Seq::empty()
    } else if ids.last() == p {
        without(ids.drop_last(), p)
    } else {
        without(ids.drop_last(), p).push(ids.last())
    }
}

/// Whether a run action's putter is a memory cell.
pub open spec fn putter_is_mem(spaces: Seq<SpaceKind>, a: RunAction) -> bool {
    spaces[a.putter as int] == SpaceKind::Memo
}

/// The memory cells that receive the datum of action `a`.
pub open spec fn mem_targets(spaces: Seq<SpaceKind>, a: RunAction) -> Seq<usize> {
    if putter_is_mem(spaces, a) {
        without(loc_list_contents(a.mg), a.putter)
    } else {
        loc_list_contents(a.mg)
    }
}

/// Whether the memory putter of `a` empties as the action happens.
pub open spec fn empties_putter(spaces: Seq<SpaceKind>, a: RunAction) -> bool {
    &&& loc_list_contents(a.pg).len() == 0
    &&& putter_is_mem(spaces, a)
    &&& !loc_list_contents(a.mg).contains(a.putter)
}

/// Readiness after performing action `a`: memory getters become ready, and so does a
/// memory putter that empties.
pub open spec fn ready_after_action(ready: Seq<usize>, spaces: Seq<SpaceKind>, a: RunAction) -> Seq<usize> {
    let r1 = set_many(ready, mem_targets(spaces, a));
    if empties_putter(spaces, a) {
        set_chunks(r1, a.putter, true)
    } else {
        r1
    }
}

/// Readiness after performing, in order, the actions `acts`.
pub open spec fn ready_after_actions(ready: Seq<usize>, spaces: Seq<SpaceKind>, acts: Seq<RunAction>) -> Seq<usize>
    decreases acts.len(),
{
    if acts.len() == 0 {
        ready
    } else {
        ready_after_action(ready_after_actions(ready, spaces, acts.drop_last()), spaces, acts.last())
    }
}

proof fn lemma_set_many_has(s: Seq<usize>, ids: Seq<usize>, x: usize)
    ensures
        seq_has(set_many(s, ids), x as int) == (seq_has(s, x as int) || ids.contains(x)),
    decreases ids.len(),
{
    if ids.len() > 0 {
        lemma_set_many_has(s, ids.drop_last(), x);
        crate::bitset::lemma_set_chunks_bits(set_many(s, ids.drop_last()), ids.last(), true);
        if ids.contains(x) && x != ids.last() {
            let w = choose|w: int| 0 <= w < ids.len() && ids[w] == x;
            assert(ids.drop_last()[w] == x);
        }
        if ids.drop_last().contains(x) {
            let w = choose|w: int| 0 <= w < ids.len() - 1 && ids.drop_last()[w] == x;
            assert(ids[w] == x);
        }
        if x == ids.last() {
            assert(ids[ids.len() - 1] == x);
        }
    }
}

proof fn lemma_without_has(ids: Seq<usize>, p: usize, x: usize)
    ensures
        without(ids, p).contains(x) == (ids.contains(x) && x != p),
    decreases ids.len(),
{
    if ids.len() > 0 {
        lemma_without_has(ids.drop_last(), p, x);
        let w0 = without(ids.drop_last(), p);
        if ids.contains(x) && x != ids.last() {
            let w = choose|w: int| 0 <= w < ids.len() && ids[w] == x;
            assert(ids.drop_last()[w] == x);
        }
        if ids.drop_last().contains(x) {
            let w = choose|w: int| 0 <= w < ids.len() - 1 && ids.drop_last()[w] == x;
            assert(ids[w] == x);
        }
        if x == ids.last() {
            assert(ids[ids.len() - 1] == x);
        }
        if ids.last() != p {
            if w0.push(ids.last()).contains(x) && x != ids.last() {
                let w = choose|w: int| 0 <= w < w0.len() + 1 && w0.push(ids.last())[w] == x;
                assert(w0[w] == x);
            }
            if w0.contains(x) {
                let w = choose|w: int| 0 <= w < w0.len() && w0[w] == x;
                assert(w0.push(ids.last())[w] == x);
            }
            if x == ids.last() {
                assert(w0.push(ids.last())[w0.len() as int] == x);
            }
        }
    }
}

/// What an action's plan says: the datum goes from the action's putter to its port
/// getters and to its memory getters other than the putter; a memory putter listed among
/// its own getters keeps the datum; a memory putter with no port getter that does not keep
/// the datum empties; a port putter with no port getter is told at once whether a memory
/// cell took the datum (1) or not (0), and nothing else is told at once.
pub proof fn law_plan(plan: ActionPlan, spaces: Seq<SpaceKind>, a: RunAction)
    requires
        plan_is(plan, spaces, a),
    ensures
        plan.putter == a.putter,
        forall|g: usize|
            #[trigger] plan.mem_getters@.contains(g) == (loc_list_contents(a.mg).contains(g) && !(g == a.putter
                && spaces[a.putter as int] == SpaceKind::Memo)),
        plan.port_getters@ == loc_list_contents(a.pg),
        plan.move_into_self == (spaces[a.putter as int] == SpaceKind::Memo && loc_list_contents(a.mg).contains(a.putter)),
        plan.make_empty == (spaces[a.putter as int] == SpaceKind::Memo && loc_list_contents(a.pg).len() == 0
            && !loc_list_contents(a.mg).contains(a.putter)),
        (spaces[a.putter as int] != SpaceKind::Memo && loc_list_contents(a.pg).len() == 0) ==> plan.putter_reply
            == Some(if loc_list_contents(a.mg).len() == 0 { 0usize } else { 1usize }),
        (spaces[a.putter as int] == SpaceKind::Memo || loc_list_contents(a.pg).len() > 0) ==> plan.putter_reply is None,
{
    assert forall|g: usize| #[trigger] plan.mem_getters@.contains(g) == (loc_list_contents(a.mg).contains(g) && !(g
        == a.putter && spaces[a.putter as int] == SpaceKind::Memo)) by {
        if putter_is_mem(spaces, a) {
            lemma_without_has(loc_list_contents(a.mg), a.putter, g);
        }
    }
}

/// Readiness after performing an action: whatever was ready stays ready; every memory
/// cell that receives the datum becomes ready; a memory putter that no port getter takes
/// the datum from, and that does not take it back itself, empties and becomes ready; and
/// nothing else becomes ready.
pub proof fn law_action_readiness(ready: Seq<usize>, spaces: Seq<SpaceKind>, a: RunAction)
    ensures
        forall|x: usize| seq_has(ready, x as int) ==> #[trigger] seq_has(ready_after_action(ready, spaces, a), x as int),
        forall|g: usize|
            loc_list_contents(a.mg).contains(g) && g != a.putter ==> #[trigger] seq_has(
                ready_after_action(ready, spaces, a),
                g as int,
            ),
        spaces[a.putter as int] == SpaceKind::Memo && loc_list_contents(a.pg).len() == 0 && !loc_list_contents(
            a.mg,
        ).contains(a.putter) ==> seq_has(ready_after_action(ready, spaces, a), a.putter as int),
        forall|x: usize|
            #[trigger] seq_has(ready_after_action(ready, spaces, a), x as int) ==> seq_has(ready, x as int) || (
            loc_list_contents(a.mg).contains(x) && x != a.putter) || (x == a.putter && spaces[a.putter as int]
                == SpaceKind::Memo && loc_list_contents(a.pg).len() == 0 && !loc_list_contents(a.mg).contains(a.putter))
            || (loc_list_contents(a.mg).contains(x) && spaces[a.putter as int] != SpaceKind::Memo),
{
    let mg = loc_list_contents(a.mg);
    let targets = mem_targets(spaces, a);
    let r1 = set_many(ready, targets);
    assert forall|x: usize| #[trigger] seq_has(r1, x as int) == (seq_has(ready, x as int) || targets.contains(x)) by {
        lemma_set_many_has(ready, targets, x);
    }
    assert forall|x: usize| targets.contains(x) == (mg.contains(x) && (x != a.putter || spaces[a.putter as int]
        != SpaceKind::Memo)) by {
        if putter_is_mem(spaces, a) {
            lemma_without_has(mg, a.putter, x);
        }
    }
    crate::bitset::lemma_set_chunks_bits(r1, a.putter, true);
}

/// `plan` is what action `a` requires.
pub open spec fn plan_is(plan: ActionPlan, spaces: Seq<SpaceKind>, a: RunAction) -> bool {
    &&& plan.putter == a.putter
    &&& plan.mem_putter == putter_is_mem(spaces, a)
    &&& plan.move_into_self == (putter_is_mem(spaces, a) && loc_list_contents(a.mg).contains(a.putter))
    &&& plan.mem_getters@ == mem_targets(spaces, a)
    &&& plan.port_getters@ == loc_list_contents(a.pg)
    &&& plan.putter_reply == (if loc_list_contents(a.pg).len() == 0 && !putter_is_mem(spaces, a) {
        Some(if loc_list_contents(a.mg).len() == 0 { 0usize } else { 1usize })
    } else {
        None
    })
    &&& plan.make_empty == empties_putter(spaces, a)
}

/// Whether `a` is a superset of `b` in the sense of [`BitSet::is_superset`].
pub open spec fn superset_chunks(a: Seq<usize>, b: Seq<usize>) -> bool {
    a.len() >= b.len() && forall|k: int| 0 <= k < b.len() ==> #[trigger] (b[k] & !a[k]) == 0
}

/// The waiters of `ws` whose state is not yet all ready.
pub open spec fn still_waiting(ready: Seq<usize>, ws: Seq<StateWaiter>) -> Seq<StateWaiter>
    decreases ws.len(),
{
    if ws.len() == 0 {
        Seq::empty()
    } else if superset_chunks(ready, ws.last().state@) {
        still_waiting(ready, ws.drop_last())
    } else {
        still_waiting(ready, ws.drop_last()).push(ws.last())
    }
}

/// The waiters of `ws` whose state is all ready, in order.
pub open spec fn woken(ready: Seq<usize>, ws: Seq<StateWaiter>) -> Seq<usize>
    decreases ws.len(),
{
    if ws.len() == 0 {
        Seq::empty()
    } else if superset_chunks(ready, ws.last().state@) {
        woken(ready, ws.drop_last()).push(ws.last().whom)
    } else {
        woken(ready, ws.drop_last())
    }
}

/// Effects telling each of `ids` that `msg` happened.
pub open spec fn sends(ids: Seq<usize>, msg: usize) -> Seq<Effect> {
    Seq::new(ids.len(), |i: int| Effect::Send { to: ids[i], msg })
}

impl ProtoCore {
    /// Every action moves data between existing locations from a putter space; the
    /// readiness bits stay within the locations; a commitment awaits someone.
    pub open spec fn wf(&self) -> bool {
        &&& self.spaces@.len() + 4 * wbits() <= usize::MAX
        &&& self.ready@.len() * wbits() <= self.spaces@.len() + wbits()
        &&& forall|i: int, j: int|
            0 <= i < self.rules@.len() && 0 <= j < self.rules@[i].actions@.len() ==> action_wf(
                self.spaces@,
                #[trigger] self.rules@[i].actions@[j],
            )
        &&& forall|i: int| 0 <= i < self.rules@.len() ==> runnable(#[trigger] self.rules@[i].guard_pred)
        &&& (self.commitment matches Some(c) ==> c.awaiting > 0 && c.rule_id < self.rules@.len())
    }

    /// Claims port `id` for data of type `type_key`: an unclaimed port of that type is
    /// handed out (and is no longer unclaimed), anything else is refused.
    pub fn claim(&mut self, id: LocId, type_key: TypeKey) -> (r: ClaimResult)
        ensures
            ({
                let ports = port_info_map_contents(old(self).unclaimed_ports);
                if !ports.contains_key(id) {
                    r == ClaimResult::NotUnclaimed && final(self).unclaimed_ports == old(self).unclaimed_ports
                } else if ports[id].type_key != type_key {
                    r == ClaimResult::TypeMismatch && final(self).unclaimed_ports == old(self).unclaimed_ports
                } else {
                    &&& r == (if ports[id].role == PortRole::Putter {
                        ClaimResult::GotPutter(id)
                    } else {
                        ClaimResult::GotGetter(id)
                    })
                    &&& port_info_map_contents(final(self).unclaimed_ports) == ports.remove(id)
                }
            }),
            final(self).rules == old(self).rules,
            final(self).spaces == old(self).spaces,
            final(self).memory_bits == old(self).memory_bits,
            final(self).ready == old(self).ready,
            final(self).ready_tentative == old(self).ready_tentative,
            final(self).commitment == old(self).commitment,
            final(self).awaiting_states == old(self).awaiting_states,
    {
        match self.unclaimed_ports.get(id) {
            Some(x) => {
                if x.type_key == type_key {
                    let _ = self.unclaimed_ports.remove(id);
                    match x.role {
                        PortRole::Putter => ClaimResult::GotPutter(id),
                        PortRole::Getter => ClaimResult::GotGetter(id),
                    }
                } else {
                    ClaimResult::TypeMismatch
                }
            },
            None => ClaimResult::NotUnclaimed,
        }
    }

    /// Returns port `id` (with its role and type) to the unclaimed ports.
    pub fn unclaim(&mut self, id: LocId, info: PortInfo)
        ensures
            port_info_map_contents(final(self).unclaimed_ports) == port_info_map_contents(
                old(self).unclaimed_ports,
            ).insert(id, info),
            final(self).rules == old(self).rules,
            final(self).spaces == old(self).spaces,
            final(self).memory_bits == old(self).memory_bits,
            final(self).ready == old(self).ready,
            final(self).ready_tentative == old(self).ready_tentative,
            final(self).commitment == old(self).commitment,
            final(self).awaiting_states == old(self).awaiting_states,
    {
        let _ = self.unclaimed_ports.insert(id, info);
    }

    /// Withdraws the readiness of `id`, returning whether it was still ready (when it was
    /// not, a rule has already consumed it).
    pub fn retract_ready(&mut self, id: LocId) -> (was_ready: bool)
        requires
            old(self).wf(),
        ensures
            final(self).wf(),
            was_ready == old(self).ready.has(id as int),
            final(self).ready@ == set_chunks(old(self).ready@, id, false),
            final(self).rules == old(self).rules,
            final(self).spaces == old(self).spaces,
            final(self).memory_bits == old(self).memory_bits,
            final(self).ready_tentative == old(self).ready_tentative,
            final(self).commitment == old(self).commitment,
            final(self).awaiting_states == old(self).awaiting_states,
            final(self).unclaimed_ports == old(self).unclaimed_ports,
    {
        self.ready.set_to(id, false)
    }

    /// Marks `id` ready. Requires `id` to be a location of the protocol.
    fn mark_ready(&mut self, id: LocId)
        requires
            old(self).wf(),
            id < old(self).spaces@.len(),
        ensures
            final(self).wf(),
            final(self).ready@ == set_chunks(old(self).ready@, id, true),
            final(self).rules == old(self).rules,
            final(self).spaces == old(self).spaces,
            final(self).memory_bits == old(self).memory_bits,
            final(self).ready_tentative == old(self).ready_tentative,
            final(self).commitment == old(self).commitment,
            final(self).awaiting_states == old(self).awaiting_states,
            final(self).unclaimed_ports == old(self).unclaimed_ports,
    {
        proof {
            crate::bits::lemma_wbits();
            crate::bitset::lemma_index_split(id as int);
            let c = id as int / wbits();
            assert(c * wbits() <= id);
            assert((c + 1) * wbits() <= self.spaces@.len() + wbits());
        }
        self.ready.set_to(id, true);
    }
}

/// The action moves data between existing locations, from a putter space.
pub open spec fn action_wf(spaces: Seq<SpaceKind>, a: RunAction) -> bool {
    &&& a.putter < spaces.len()
    &&& (spaces[a.putter as int] == SpaceKind::PoPu || spaces[a.putter as int] == SpaceKind::Memo)
    &&& forall|k: int| 0 <= k < loc_list_contents(a.mg).len() ==> #[trigger] loc_list_contents(a.mg)[k] < spaces.len()
    &&& forall|k: int| 0 <= k < loc_list_contents(a.pg).len() ==> #[trigger] loc_list_contents(a.pg)[k] < spaces.len()
}

/// The readiness chunks only reach as far as the `n` locations need, and `n` leaves room
/// for index arithmetic.
pub open spec fn ready_bounded(ready: Seq<usize>, n: nat) -> bool {
    &&& n + 4 * wbits() <= usize::MAX
    &&& ready.len() * wbits() <= n + wbits()
}

proof fn lemma_set_keeps_bounded(ready: Seq<usize>, n: nat, id: usize)
    requires
        ready_bounded(ready, n),
        id < n,
    ensures
        ready_bounded(set_chunks(ready, id, true), n),
{
    crate::bits::lemma_wbits();
    crate::bitset::lemma_index_split(id as int);
    let c = id as int / wbits();
    assert(c * wbits() <= id);
    assert((c + 1) * wbits() <= n + wbits()) by (nonlinear_arith)
        requires
            c * wbits() <= id,
            id < n,
    ;
}

proof fn lemma_clear_keeps_bounded(ready: Seq<usize>, n: nat, id: usize)
    requires
        ready_bounded(ready, n),
    ensures
        ready_bounded(set_chunks(ready, id, false), n),
        set_chunks(ready, id, false).len() == ready.len(),
{
}

/// Sets the bit of location `id` (one of the `n` locations).
fn set_ready(ready: &mut BitSet, id: LocId, Ghost(n): Ghost<nat>)
    requires
        ready_bounded(old(ready)@, n),
        id < n,
    ensures
        ready_bounded(final(ready)@, n),
        final(ready)@ == set_chunks(old(ready)@, id, true),
{
    proof {
        lemma_set_keeps_bounded(ready@, n, id);
    }
    ready.set_to(id, true);
}

/// Plans one data movement of a firing rule and marks ready the memory cells that
/// receive the datum and a memory putter that empties.
pub fn perform_action(ready: &mut BitSet, spaces: &Vec<SpaceKind>, a: &RunAction) -> (plan: ActionPlan)
    requires
        action_wf(spaces@, *a),
        ready_bounded(old(ready)@, spaces@.len()),
    ensures
        plan_is(plan, spaces@, *a),
        final(ready)@ == ready_after_action(old(ready)@, spaces@, *a),
        ready_bounded(final(ready)@, spaces@.len()),
{
    let ghost n = spaces@.len();
    let ghost mg = loc_list_contents(a.mg);
    let p = a.putter;
    let mem_putter = match spaces[p] {
        SpaceKind::Memo => true,
        _ => false,
    };
    let mut move_into_self = false;
    let mut mem_getters: Vec<LocId> = Vec::new();
    let n_mg = a.mg.len();
    let mut k: usize = 0;
    assert(mg.subrange(0, 0) =~= Seq::<usize>::empty());
    while k < n_mg
        invariant
            n == spaces@.len(),
            mg == loc_list_contents(a.mg),
            n_mg == mg.len(),
            action_wf(spaces@, *a),
            mem_putter == (spaces@[p as int] == SpaceKind::Memo),
            p == a.putter,
            k <= n_mg,
            move_into_self == (mem_putter && mg.subrange(0, k as int).contains(p)),
            mem_getters@ == (if mem_putter { without(mg.subrange(0, k as int), p) } else { mg.subrange(0, k as int) }),
            ready@ == set_many(old(ready)@, mem_getters@),
            ready_bounded(ready@, n),
        decreases n_mg - k,
    {
        let ghost before = mg.subrange(0, k as int);
        let ghost after = mg.subrange(0, k + 1);
        assert(after.drop_last() == before);
        assert(after.last() == mg[k as int]);
        let g = a.mg.get(k);
        if mem_putter && g == p {
            move_into_self = true;
            assert(after.contains(p)) by {
                assert(after[k as int] == p);
            }
        } else {
            let ghost mg_before = mem_getters@;
            mem_getters.push(g);
            proof {
                assert(mem_getters@.drop_last() == mg_before);
            }
            set_ready(ready, g, Ghost(n));
            proof {
                if mem_putter && before.contains(p) {
                    let w = choose|w: int| 0 <= w < before.len() && before[w] == p;
                    assert(after[w] == p);
                }
                if mem_putter && after.contains(p) {
                    let w = choose|w: int| 0 <= w < after.len() && after[w] == p;
                    assert(w < k);
                    assert(before[w] == p);
                }
            }
        }
        proof {
            if mem_putter && g == p && before.contains(p) {
            }
            if !(mem_putter && g == p) && mem_putter && after.contains(p) {
                let w = choose|w: int| 0 <= w < after.len() && after[w] == p;
                assert(before[w] == p);
            }
            if mem_putter && before.contains(p) {
                let w = choose|w: int| 0 <= w < before.len() && before[w] == p;
                assert(after[w] == p);
            }
        }
        k += 1;
    }
    assert(mg.subrange(0, n_mg as int) == mg);
    let ghost pg = loc_list_contents(a.pg);
    let n_pg = a.pg.len();
    let mut port_getters: Vec<LocId> = Vec::new();
    let mut k: usize = 0;
    while k < n_pg
        invariant
            pg == loc_list_contents(a.pg),
            n_pg == pg.len(),
            k <= n_pg,
            port_getters@ == pg.subrange(0, k as int),
        decreases n_pg - k,
    {
        port_getters.push(a.pg.get(k));
        k += 1;
    }
    assert(pg.subrange(0, n_pg as int) == pg);
    let putter_reply = if n_pg == 0 && !mem_putter {
        Some(if n_mg == 0 { 0usize } else { 1usize })
    } else {
        None
    };
    let make_empty = n_pg == 0 && mem_putter && !move_into_self;
    if make_empty {
        set_ready(ready, p, Ghost(n));
    }
    ActionPlan { putter: p, mem_putter, move_into_self, mem_getters, port_getters, putter_reply, make_empty }
}

impl ProtoCore {
    /// Performs, in order, the actions of rule `rule_id`, returning their plans.
    fn fire_rule(&mut self, rule_id: usize) -> (effects: Vec<Effect>)
        requires
            old(self).wf(),
            rule_id < old(self).rules@.len(),
        ensures
            final(self).wf(),
            final(self).ready@ == ready_after_actions(
                old(self).ready@,
                old(self).spaces@,
                old(self).rules@[rule_id as int].actions@,
            ),
            effects@.len() == old(self).rules@[rule_id as int].actions@.len(),
            forall|j: int|
                0 <= j < effects@.len() ==> (#[trigger] effects@[j] matches Effect::Act(plan)
                    && plan_is(plan, old(self).spaces@, old(self).rules@[rule_id as int].actions@[j])),
            final(self).rules == old(self).rules,
            final(self).spaces == old(self).spaces,
            final(self).memory_bits == old(self).memory_bits,
            final(self).ready_tentative == old(self).ready_tentative,
            final(self).commitment == old(self).commitment,
            final(self).awaiting_states == old(self).awaiting_states,
            final(self).unclaimed_ports == old(self).unclaimed_ports,
    {
        let ghost acts = self.rules@[rule_id as int].actions@;
        let mut effects: Vec<Effect> = Vec::new();
        let n = self.rules[rule_id].actions.len();
        let mut j: usize = 0;
        assert(acts.subrange(0, 0) =~= Seq::<RunAction>::empty());
        while j < n
            invariant
                self.wf(),
                rule_id < self.rules@.len(),
                acts == self.rules@[rule_id as int].actions@,
                n == acts.len(),
                j <= n,
                self.ready@ == ready_after_actions(old(self).ready@, self.spaces@, acts.subrange(0, j as int)),
                effects@.len() == j,
                forall|i: int|
                    0 <= i < j ==> (#[trigger] effects@[i] matches Effect::Act(plan) && plan_is(plan, self.spaces@, acts[i])),
                self.rules == old(self).rules,
                self.spaces == old(self).spaces,
                self.memory_bits == old(self).memory_bits,
                self.ready_tentative == old(self).ready_tentative,
                self.commitment == old(self).commitment,
                self.awaiting_states == old(self).awaiting_states,
                self.unclaimed_ports == old(self).unclaimed_ports,
            decreases n - j,
        {
            assert(acts.subrange(0, j + 1).drop_last() == acts.subrange(0, j as int));
            assert(acts.subrange(0, j + 1).last() == acts[j as int]);
            proof {
                assert(action_wf(self.spaces@, self.rules@[rule_id as int].actions@[j as int]));
            }
            let plan = perform_action(&mut self.ready, &self.spaces, &self.rules[rule_id].actions[j]);
            effects.push(Effect::Act(plan));
            j += 1;
        }
        assert(acts.subrange(0, n as int) == acts);
        effects
    }

    /// Wakes (with [`NOTHING_MSG`]) every state waiter whose state is all ready, keeping
    /// the others waiting in order.
    fn notify_state_waiters(&mut self) -> (effects: Vec<Effect>)
        ensures
            final(self).awaiting_states@ == still_waiting(old(self).ready@, old(self).awaiting_states@),
            effects@ == sends(woken(old(self).ready@, old(self).awaiting_states@), NOTHING_MSG),
            final(self).rules == old(self).rules,
            final(self).spaces == old(self).spaces,
            final(self).memory_bits == old(self).memory_bits,
            final(self).ready == old(self).ready,
            final(self).ready_tentative == old(self).ready_tentative,
            final(self).commitment == old(self).commitment,
            final(self).unclaimed_ports == old(self).unclaimed_ports,
    {
        let ghost ws = self.awaiting_states@;
        let mut pending: Vec<StateWaiter> = Vec::new();
        std::mem::swap(&mut pending, &mut self.awaiting_states);
        let mut kept: Vec<StateWaiter> = Vec::new();
        let mut effects: Vec<Effect> = Vec::new();
        let n = pending.len();
        let mut k: usize = 0;
        assert(ws.subrange(0, 0) =~= Seq::<StateWaiter>::empty());
        while k < n
            invariant
                n == ws.len(),
                k <= n,
                pending@ == ws.subrange(k as int, n as int),
                kept@ == still_waiting(self.ready@, ws.subrange(0, k as int)),
                effects@ == sends(woken(self.ready@, ws.subrange(0, k as int)), NOTHING_MSG),
                self.ready == old(self).ready,
                ws == old(self).awaiting_states@,
                self.awaiting_states@.len() == 0,
                self.rules == old(self).rules,
                self.spaces == old(self).spaces,
                self.memory_bits == old(self).memory_bits,
                self.ready_tentative == old(self).ready_tentative,
                self.commitment == old(self).commitment,
                self.unclaimed_ports == old(self).unclaimed_ports,
            decreases n - k,
        {
            let ghost before = ws.subrange(0, k as int);
            let ghost after = ws.subrange(0, k + 1);
            assert(after.drop_last() == before);
            let w = pending.remove(0);
            assert(w == ws[k as int]);
            assert(after.last() == w);
            assert(pending@ =~= ws.subrange(k + 1, n as int));
            if self.ready.is_superset(&w.state) {
                let ghost old_eff = effects@;
                effects.push(Effect::Send { to: w.whom, msg: NOTHING_MSG });
                assert(effects@ =~= sends(woken(self.ready@, after), NOTHING_MSG));
            } else {
                kept.push(w);
            }
            k += 1;
        }
        assert(ws.subrange(0, n as int) == ws);
        self.awaiting_states = kept;
        effects
    }
}

/// One more than each set index of `s` from `pos` on, in increasing order.
pub open spec fn bits_from(s: Seq<usize>, pos: int) -> Seq<usize>
    decreases s.len() * wbits() - pos,
{
    if pos < 0 || pos >= s.len() * wbits() {
        Seq::empty()
    } else if seq_has(s, pos) {
        seq![(pos + 1) as usize].add(bits_from(s, pos + 1))
    } else {
        bits_from(s, pos + 1)
    }
}

/// The location ids that a readiness-and-tentativeness walk reports: one more than each
/// index set in [`and_source`] of the two bitsets.
pub open spec fn tentative_walk(ready: Seq<usize>, tentative: Seq<usize>) -> Seq<usize> {
    bits_from(and_source(ready, tentative), 0)
}

proof fn lemma_bits_from_skip(s: Seq<usize>, pos: int, i: int)
    requires
        0 <= pos <= i,
        forall|k: int| pos <= k < i ==> !seq_has(s, k),
    ensures
        bits_from(s, pos) == bits_from(s, i),
    decreases i - pos,
{
    if pos < i {
        if pos < s.len() * wbits() {
            lemma_bits_from_skip(s, pos + 1, i);
        } else {
            assert(bits_from(s, pos) == Seq::<usize>::empty());
            lemma_bits_from_empty_beyond(s, i);
        }
    }
}

proof fn lemma_bits_from_empty_beyond(s: Seq<usize>, i: int)
    requires
        i >= s.len() * wbits(),
    ensures
        bits_from(s, i) == Seq::<usize>::empty(),
{
}

proof fn lemma_bits_from_none(s: Seq<usize>, pos: int)
    requires
        pos >= 0,
        forall|k: int| k >= pos ==> !seq_has(s, k),
    ensures
        bits_from(s, pos) == Seq::<usize>::empty(),
    decreases s.len() * wbits() - pos,
{
    if pos < s.len() * wbits() {
        lemma_bits_from_none(s, pos + 1);
    }
}

/// The least rule that can fire: its guard bits are satisfied and its data
/// constraint holds.
pub open spec fn firable(c: ProtoCore, i: int) -> bool {
    &&& spec_is_ready(c.memory_bits@, c.ready@, c.rules@[i].guard_ready@, c.rules@[i].guard_full@)
    &&& spec_eval(c.rules@[i].guard_pred, c.memory_bits@)
}

/// The effects list starts with one [`Effect::Act`] per action of `acts`, planned for
/// `spaces`, and goes on with `rest`.
pub open spec fn acts_then(effects: Seq<Effect>, spaces: Seq<SpaceKind>, acts: Seq<RunAction>, rest: Seq<Effect>) -> bool {
    &&& effects.len() == acts.len() + rest.len()
    &&& forall|j: int|
        0 <= j < acts.len() ==> (#[trigger] effects[j] matches Effect::Act(plan) && plan_is(plan, spaces, acts[j]))
    &&& effects.subrange(acts.len() as int, effects.len() as int) == rest
}

impl ProtoCore {
    /// The ids reported by walking the ready and tentative bitsets together.
    pub fn tentative_ids(&self) -> (ids: Vec<LocId>)
        requires
            self.wf(),
        ensures
            ids@ == tentative_walk(self.ready@, self.ready_tentative@),
    {
        proof {
            crate::bits::lemma_wbits();
            assert(self.ready@.len() * wbits() + wbits() <= usize::MAX);
        }
        let mut it = self.ready.iter_and(&self.ready_tentative);
        let ghost src = and_source(self.ready@, self.ready_tentative@);
        let mut ids: Vec<LocId> = Vec::new();
        loop
            invariant_except_break
                it.wf(),
                it.source() == src,
                it.pos() >= 0,
                ids@ + bits_from(src, it.pos()) == bits_from(src, 0),
            invariant
                src == and_source(self.ready@, self.ready_tentative@),
            ensures
                ids@ == bits_from(src, 0),
            decreases src.len() * wbits() - it.pos(),
        {
            let ghost pos = it.pos();
            match it.next() {
                Some(id) => {
                    proof {
                        lemma_bits_from_skip(src, pos, id - 1);
                        assert(id - 1 < src.len() * wbits()) by {
                            if id - 1 >= src.len() * wbits() {
                                lemma_beyond(src, id - 1);
                            }
                        }
                        assert(bits_from(src, id - 1) == seq![id].add(bits_from(src, id as int)));
                    }
                    let ghost ids_before = ids@;
                    ids.push(id);
                    proof {
                        assert(ids@ + bits_from(src, it.pos()) =~= ids_before + seq![id].add(bits_from(src, id as int)));
                    }
                },
                None => {
                    proof {
                        lemma_bits_from_none(src, pos);
                        assert(ids@ + bits_from(src, pos) =~= ids@);
                    }
                    break;
                },
            }
        }
        ids
    }
}

/// One step of [`ProtoCore::exhaust_step`] from `pre` to `post`: the first firable rule
/// commits or fires, with the given outcome and effects, or no rule can fire and nothing
/// changes.
pub open spec fn stepped(pre: ProtoCore, post: ProtoCore, outcome: StepOutcome, effects: Seq<Effect>) -> bool {
    &&& (outcome is Quiet <==> forall|i: int| 0 <= i < pre.rules@.len() ==> !#[trigger] firable(pre, i))
    &&& (outcome is Quiet ==> post == pre && effects.len() == 0)
    &&& (outcome matches StepOutcome::Committed { rule_id } ==> {
        let tent = tentative_walk(pre.ready@, pre.ready_tentative@);
        &&& rule_id < pre.rules@.len()
        &&& firable(pre, rule_id as int)
        &&& forall|i: int| 0 <= i < rule_id ==> !#[trigger] firable(pre, i)
        &&& tent.len() > 0
        &&& effects == sends(tent, rule_id)
        &&& post.commitment == Some(Commitment { rule_id, awaiting: tent.len() as usize })
        &&& post.memory_bits@ == assign_chunks(
            pre.memory_bits@,
            pre.rules@[rule_id as int].assign_vals@,
            pre.rules@[rule_id as int].assign_mask@,
        )
        &&& post.ready == pre.ready
        &&& post.awaiting_states == pre.awaiting_states
    })
    &&& (outcome matches StepOutcome::Fired { rule_id } ==> {
        let rule = pre.rules@[rule_id as int];
        let ready1 = ready_after_actions(
            difference_chunks(pre.ready@, rule.guard_ready@),
            pre.spaces@,
            rule.actions@,
        );
        &&& rule_id < pre.rules@.len()
        &&& firable(pre, rule_id as int)
        &&& forall|i: int| 0 <= i < rule_id ==> !#[trigger] firable(pre, i)
        &&& tentative_walk(pre.ready@, pre.ready_tentative@).len() == 0
        &&& post.memory_bits@ == assign_chunks(
            pre.memory_bits@,
            rule.assign_vals@,
            rule.assign_mask@,
        )
        &&& post.ready@ == ready1
        &&& post.awaiting_states@ == still_waiting(ready1, pre.awaiting_states@)
        &&& acts_then(
            effects,
            pre.spaces@,
            rule.actions@,
            sends(woken(ready1, pre.awaiting_states@), NOTHING_MSG),
        )
        &&& post.commitment == pre.commitment
    })
    &&& post.rules == pre.rules
    &&& post.spaces == pre.spaces
    &&& post.ready_tentative == pre.ready_tentative
    &&& post.unclaimed_ports == pre.unclaimed_ports
}

/// `states` runs through successive steps: step `j` goes from `states[j]` to
/// `states[j + 1]` with outcome `outcomes[j]` and effects `parts[j]`, and every step but
/// the last fired a rule.
pub open spec fn ran(states: Seq<ProtoCore>, outcomes: Seq<StepOutcome>, parts: Seq<Seq<Effect>>) -> bool {
    &&& outcomes.len() > 0
    &&& states.len() == outcomes.len() + 1
    &&& parts.len() == outcomes.len()
    &&& forall|j: int| 0 <= j < outcomes.len() ==> #[trigger] stepped(states[j], states[j + 1], outcomes[j], parts[j])
    &&& forall|j: int| 0 <= j < outcomes.len() - 1 ==> #[trigger] outcomes[j] is Fired
}

impl ProtoCore {
    /// Fires rules one after another, as a port's arrival does, until no rule can fire
    /// or one commits and waits for tentative ports. At most `max_fired` rules fire, so
    /// that a protocol whose rules could fire forever hands control back. Returns the
    /// last step's outcome, the effects of all steps in order, and how many rules fired:
    /// the run is a sequence of [`ProtoCore::exhaust_step`]s, each but the last firing a
    /// rule. A run that ends `Quiet` leaves no rule firable; one that ends `Committed`
    /// leaves the coordinator committed to that rule; one that ends `Fired` fired
    /// `max_fired` rules.
    pub fn run_rules(&mut self, max_fired: usize) -> (r: (StepOutcome, Vec<Effect>, usize))
        requires
            old(self).wf(),
            max_fired > 0,
        ensures
            final(self).wf(),
            exists|states: Seq<ProtoCore>, outcomes: Seq<StepOutcome>, parts: Seq<Seq<Effect>>|
                #[trigger] ran(states, outcomes, parts) && states[0] == *old(self) && states.last() == *final(self)
                    && outcomes.last() == r.0 && parts.flatten() == r.1@ && outcomes.len() == (if r.0 is Fired {
                    r.2 as int
                } else {
                    r.2 + 1
                }),
            r.2 <= max_fired,
            r.0 is Quiet ==> forall|i: int|
                0 <= i < final(self).rules@.len() ==> !#[trigger] firable(*final(self), i),
            r.0 matches StepOutcome::Committed { rule_id } ==> (final(self).commitment matches Some(c)
                && c.rule_id == rule_id),
            r.0 is Fired ==> r.2 == max_fired,
    {
        let mut effects: Vec<Effect> = Vec::new();
        let mut fired: usize = 0;
        let ghost mut states: Seq<ProtoCore> = seq![*self];
        let ghost mut outcomes: Seq<StepOutcome> = Seq::empty();
        let ghost mut parts: Seq<Seq<Effect>> = Seq::empty();
        loop
            invariant
                self.wf(),
                fired < max_fired,
                states.len() == outcomes.len() + 1,
                parts.len() == outcomes.len(),
                outcomes.len() == fired,
                states[0] == *old(self),
                states.last() == *self,
                forall|j: int|
                    0 <= j < outcomes.len() ==> #[trigger] stepped(states[j], states[j + 1], outcomes[j], parts[j]),
                forall|j: int| 0 <= j < outcomes.len() ==> #[trigger] outcomes[j] is Fired,
                effects@ == parts.flatten(),
            decreases max_fired - fired,
        {
            let ghost pre = *self;
            let (outcome, mut step_effects) = self.exhaust_step();
            let ghost part = step_effects@;
            effects.append(&mut step_effects);
            proof {
                parts.lemma_flatten_push(part);
                let ghost s0 = states;
                states = states.push(*self);
                outcomes = outcomes.push(outcome);
                parts = parts.push(part);
                assert forall|j: int| 0 <= j < outcomes.len() implies #[trigger] stepped(
                    states[j],
                    states[j + 1],
                    outcomes[j],
                    parts[j],
                ) by {
                    if j < outcomes.len() - 1 {
                        assert(states[j] == s0[j]);
                        assert(states[j + 1] == s0[j + 1]);
                    }
                }
                assert(ran(states, outcomes, parts));
            }
            match outcome {
                StepOutcome::Fired { .. } => {
                    fired += 1;
                    if fired == max_fired {
                        return (outcome, effects, fired);
                    }
                },
                _ => {
                    return (outcome, effects, fired);
                },
            }
        }
    }

    /// Tries the rules in order and fires (or commits to) the first one that can fire.
    /// Committing happens when tentative ports take part: each is told the rule id, the
    /// memory bits are already updated, and the firing waits for them. Otherwise the
    /// rule fires at once: the locations it involves are no longer ready, its actions
    /// are planned, and satisfied state waiters are woken.
    pub fn exhaust_step(&mut self) -> (r: (StepOutcome, Vec<Effect>))
        requires
            old(self).wf(),
        ensures
            final(self).wf(),
            stepped(*old(self), *final(self), r.0, r.1@),
    {
        let n = self.rules.len();
        let mut i: usize = 0;
        while i < n
            invariant
                self.wf(),
                *self == *old(self),
                n == self.rules@.len(),
                i <= n,
                forall|j: int| 0 <= j < i ==> !#[trigger] firable(*old(self), j),
            decreases n - i,
        {
            proof {
                assert(runnable(self.rules@[i as int].guard_pred));
            }
            if is_ready(&self.memory_bits, &self.ready, &self.rules[i]) && eval_formula(
                &self.rules[i].guard_pred,
                &self.memory_bits,
            ) {
                assert(firable(*old(self), i as int));
                let ids = self.tentative_ids();
                let mut effects: Vec<Effect> = Vec::new();
                let mut k: usize = 0;
                while k < ids.len()
                    invariant
                        k <= ids@.len(),
                        effects@ == sends(ids@.subrange(0, k as int), i),
                    decreases ids@.len() - k,
                {
                    effects.push(Effect::Send { to: ids[k], msg: i });
                    k += 1;
                    assert(effects@ =~= sends(ids@.subrange(0, k as int), i));
                }
                assert(ids@.subrange(0, ids@.len() as int) == ids@);
                assign_memory_bits(&mut self.memory_bits, &self.rules[i]);
                if ids.len() > 0 {
                    self.commitment = Some(Commitment { rule_id: i, awaiting: ids.len() });
                    return (StepOutcome::Committed { rule_id: i }, effects);
                }
                assert(effects@.len() == 0);
                subtract_readiness(&mut self.ready, &self.rules[i]);
                proof {
                    assert(self.ready@.len() == old(self).ready@.len());
                }
                let mut plans = self.fire_rule(i);
                let mut notes = self.notify_state_waiters();
                let ghost plan_seq = plans@;
                plans.append(&mut notes);
                proof {
                    assert(plans@.subrange(plan_seq.len() as int, plans@.len() as int) =~= sends(
                        woken(self.ready@, old(self).awaiting_states@),
                        NOTHING_MSG,
                    ));
                    assert forall|j: int| 0 <= j < plan_seq.len() implies (#[trigger] plans@[j] matches Effect::Act(plan)
                        && plan_is(plan, old(self).spaces@, old(self).rules@[i as int].actions@[j])) by {
                        assert(plans@[j] == plan_seq[j]);
                    }
                }
                return (StepOutcome::Fired { rule_id: i }, plans);
            }
            i += 1;
        }
        (StepOutcome::Quiet, Vec::new())
    }

    /// Location `my_id` arrives ready. Under a commitment, a tentative arrival counts
    /// down the awaited ports, and the last one fires the committed rule. The flag
    /// returned says whether [`ProtoCore::exhaust_step`] must now be run until it is quiet.
    pub fn enter(&mut self, my_id: LocId) -> (r: (bool, Vec<Effect>))
        requires
            old(self).wf(),
            my_id < old(self).spaces@.len(),
        ensures
            final(self).wf(),
            ({
                let ready0 = set_chunks(old(self).ready@, my_id, true);
                match old(self).commitment {
                    None => {
                        &&& r.0
                        &&& r.1@.len() == 0
                        &&& final(self).ready@ == ready0
                        &&& final(self).commitment is None
                        &&& final(self).ready_tentative == old(self).ready_tentative
                        &&& final(self).awaiting_states == old(self).awaiting_states
                    },
                    Some(c) => {
                        let was_tentative = old(self).ready_tentative.has(my_id as int);
                        &&& final(self).ready_tentative@ == set_chunks(
                            old(self).ready_tentative@,
                            my_id,
                            false,
                        )
                        &&& if was_tentative {
                            &&& !r.0
                            &&& r.1@.len() == 0
                            &&& final(self).ready@ == ready0
                            &&& final(self).commitment == old(self).commitment
                            &&& final(self).awaiting_states == old(self).awaiting_states
                        } else if c.awaiting > 1 {
                            &&& !r.0
                            &&& r.1@.len() == 0
                            &&& final(self).ready@ == ready0
                            &&& final(self).commitment == Some(
                                Commitment { rule_id: c.rule_id, awaiting: (c.awaiting - 1) as usize },
                            )
                            &&& final(self).awaiting_states == old(self).awaiting_states
                        } else {
                            let rule = old(self).rules@[c.rule_id as int];
                            let ready1 = ready_after_actions(
                                difference_chunks(ready0, rule.guard_ready@),
                                old(self).spaces@,
                                rule.actions@,
                            );
                            &&& r.0
                            &&& final(self).ready@ == ready1
                            &&& final(self).commitment is None
                            &&& final(self).awaiting_states@ == still_waiting(ready1, old(self).awaiting_states@)
                            &&& acts_then(
                                r.1@,
                                old(self).spaces@,
                                rule.actions@,
                                sends(woken(ready1, old(self).awaiting_states@), NOTHING_MSG),
                            )
                        }
                    },
                }
            }),
            final(self).rules == old(self).rules,
            final(self).spaces == old(self).spaces,
            final(self).memory_bits == old(self).memory_bits,
            final(self).unclaimed_ports == old(self).unclaimed_ports,
    {
        self.mark_ready(my_id);
        match self.commitment {
            Some(c) => {
                let was = self.ready_tentative.set_to(my_id, false);
                let i_was_tentative = !was;
                if i_was_tentative {
                    let awaiting = c.awaiting - 1;
                    if awaiting == 0 {
                        let rid = c.rule_id;
                        subtract_readiness(&mut self.ready, &self.rules[rid]);
                        let mut plans = self.fire_rule(rid);
                        let mut notes = self.notify_state_waiters();
                        let ghost plan_seq = plans@;
                        let ghost ready1 = self.ready@;
                        plans.append(&mut notes);
                        self.commitment = None;
                        proof {
                            assert(plans@.subrange(plan_seq.len() as int, plans@.len() as int) =~= sends(
                                woken(ready1, old(self).awaiting_states@),
                                NOTHING_MSG,
                            ));
                            assert forall|j: int| 0 <= j < plan_seq.len() implies (#[trigger] plans@[j] matches Effect::Act(plan)
                                && plan_is(plan, old(self).spaces@, old(self).rules@[rid as int].actions@[j])) by {
                                assert(plans@[j] == plan_seq[j]);
                            }
                        }
                        return (true, plans);
                    } else {
                        self.commitment = Some(Commitment { rule_id: c.rule_id, awaiting });
                    }
                }
                (false, Vec::new())
            },
            None => (true, Vec::new()),
        }
    }
}

/// Whether `f` can be evaluated from memory fullness alone.
pub fn formula_runnable(f: &Formula) -> (r: bool)
    ensures
        r == runnable(*f),
    decreases f,
{
    match f {
        Formula::True => true,
        Formula::MemIsNull(_) => true,
        Formula::And(v) => all_runnable(v),
        Formula::Or(v) => all_runnable(v),
        Formula::NoneOf(v) => all_runnable(v),
        Formula::TermVal(Term::Boolean(b)) => formula_runnable(b),
        _ => false,
    }
}

fn all_runnable(v: &Vec<Formula>) -> (r: bool)
    ensures
        r == forall|i: int| 0 <= i < v@.len() ==> runnable(#[trigger] v@[i]),
    decreases v,
{
    let mut k: usize = 0;
    while k < v.len()
        invariant
            k <= v@.len(),
            forall|i: int| 0 <= i < k ==> runnable(#[trigger] v@[i]),
        decreases v@.len() - k,
    {
        if !formula_runnable(&v[k]) {
            return false;
        }
        k += 1;
    }
    true
}

/// Whether the action moves data between existing locations, from a putter space.
pub fn action_well_formed(spaces: &Vec<SpaceKind>, a: &RunAction) -> (r: bool)
    ensures
        r == action_wf(spaces@, *a),
{
    let p = a.putter;
    if p >= spaces.len() {
        return false;
    }
    match spaces[p] {
        SpaceKind::PoPu | SpaceKind::Memo => {},
        _ => {
            return false;
        },
    }
    let n = a.mg.len();
    let mut k: usize = 0;
    while k < n
        invariant
            n == loc_list_contents(a.mg).len(),
            k <= n,
            forall|j: int| 0 <= j < k ==> #[trigger] loc_list_contents(a.mg)[j] < spaces@.len(),
        decreases n - k,
    {
        if a.mg.get(k) >= spaces.len() {
            return false;
        }
        k += 1;
    }
    let n = a.pg.len();
    let mut k: usize = 0;
    while k < n
        invariant
            n == loc_list_contents(a.pg).len(),
            k <= n,
            forall|j: int| 0 <= j < k ==> #[trigger] loc_list_contents(a.pg)[j] < spaces@.len(),
        decreases n - k,
    {
        if a.pg.get(k) >= spaces.len() {
            return false;
        }
        k += 1;
    }
    true
}

impl ProtoCore {
    /// Whether the coordinator may run: see [`ProtoCore::wf`].
    pub fn well_formed(&self) -> (r: bool)
        ensures
            r == self.wf(),
    {
        proof {
            crate::bits::lemma_wbits();
        }
        let w = usize::BITS as usize;
        if self.spaces.len() > usize::MAX - 4 * w {
            return false;
        }
        if self.ready.data.len() > (self.spaces.len() + w) / w {
            return false;
        }
        proof {
            let l = self.ready@.len() as int;
            let n = self.spaces@.len() as int;
            assert(l * wbits() <= n + wbits()) by (nonlinear_arith)
                requires
                    l <= (n + wbits()) / wbits(),
                    wbits() > 0,
            ;
        }
        let n = self.rules.len();
        let mut i: usize = 0;
        while i < n
            invariant
                n == self.rules@.len(),
                i <= n,
                forall|x: int, j: int|
                    0 <= x < i && 0 <= j < self.rules@[x].actions@.len() ==> action_wf(
                        self.spaces@,
                        #[trigger] self.rules@[x].actions@[j],
                    ),
                forall|x: int| 0 <= x < i ==> runnable(#[trigger] self.rules@[x].guard_pred),
            decreases n - i,
        {
            if !formula_runnable(&self.rules[i].guard_pred) {
                return false;
            }
            let m = self.rules[i].actions.len();
            let mut j: usize = 0;
            while j < m
                invariant
                    n == self.rules@.len(),
                    i < n,
                    m == self.rules@[i as int].actions@.len(),
                    j <= m,
                    forall|y: int| 0 <= y < j ==> action_wf(self.spaces@, #[trigger] self.rules@[i as int].actions@[y]),
                decreases m - j,
            {
                if !action_well_formed(&self.spaces, &self.rules[i].actions[j]) {
                    return false;
                }
                j += 1;
            }
            i += 1;
        }
        match self.commitment {
            Some(c) => c.awaiting > 0 && c.rule_id < self.rules.len(),
            None => true,
        }
    }
}

} // verus!
