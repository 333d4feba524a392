//! Compilation of a protocol definition into runnable rules.
use crate::bitset::{
    seq_has, bits_match, chunks_for, final_len, lemma_pad_len, lemma_track_set, len_covers, padded,
    zeros, BitSet,
};
use crate::proto::collections::{
    loc_kind_map_contents, loc_list_contents, unique_ids, unique_seq, LocKindMap, LocList,
};
use crate::proto::definition::{
    ActionDef, Formula, LocKind, PortInfo, PortRole, ProtoBuildErr, RuleDef, TypeKey, TypelessProtoDef,
};
use crate::proto::collections::{port_info_map_contents, PortInfoMap};
use crate::proto::runtime::{assign_chunks, ProtoCore, SpaceKind};
use crate::LocId;
use vstd::prelude::*;

verus! {

/// A runnable data movement: the putter, its memory getters and its port getters.
pub struct RunAction {
    pub putter: LocId,
    pub mg: LocList,
    pub pg: LocList,
}

/// A runnable rule.
/// - `guard_ready`: every location taking part must be ready;
/// - `guard_full`: among those, which memory cells must be full (the others empty);
/// - `assign_vals` / `assign_mask`: how the firing changes memory fullness
///   (bits under the mask take the value).
pub struct RunRule {
    pub guard_ready: BitSet,
    pub guard_full: BitSet,
    pub guard_pred: Formula,
    pub assign_vals: BitSet,
    pub assign_mask: BitSet,
    pub actions: Vec<RunAction>,
}

/// State of rule compilation: the bits set so far in each bitset, the indices ever set
/// to `true` in each (they decide how far the bitset grew), the finished actions, and
/// the getters of the current action.
pub struct RuleModel {
    pub ready: Set<usize>,
    pub full: Set<usize>,
    pub vals: Set<usize>,
    pub mask: Set<usize>,
    pub t_ready: Set<usize>,
    pub t_full: Set<usize>,
    pub t_vals: Set<usize>,
    pub t_mask: Set<usize>,
    pub actions: Seq<(usize, Seq<usize>, Seq<usize>)>,
    pub mg: Seq<usize>,
    pub pg: Seq<usize>,
}

pub open spec fn empty_model() -> RuleModel {
    RuleModel {
        ready: Set::empty(),
        full: Set::empty(),
        vals: Set::empty(),
        mask: Set::empty(),
        t_ready: Set::empty(),
        t_full: Set::empty(),
        t_vals: Set::empty(),
        t_mask: Set::empty(),
        actions: Seq::empty(),
        mg: Seq::empty(),
        pg: Seq::empty(),
    }
}

/// Processing getter `g` of action `action_id` (putter `p`) of rule `rule_id`.
pub open spec fn getter_step(
    kinds: Map<usize, LocKind>,
    types: Map<usize, TypeKey>,
    rule_id: usize,
    action_id: usize,
    p: usize,
    mem_putter: bool,
    m: RuleModel,
    g: usize,
) -> Result<RuleModel, ProtoBuildErr> {
    if !kinds.contains_key(g) {
        Err(ProtoBuildErr::UnknownType { loc_id: g })
    } else if types[p] != types[g] {
        Err(
            ProtoBuildErr::TypeMismatch {
                rule_id,
                action_id,
                loc_id_putter: p,
                loc_id_getter: g,
            },
        )
    } else if !kinds[g].spec_can_get() {
        Err(ProtoBuildErr::LocCannotGet { loc_id: g })
    } else {
        let mem_getter = kinds[g].spec_is_mem();
        let m1 = if mem_getter {
            RuleModel {
                mg: m.mg.push(g),
                full: m.full.remove(g),
                vals: m.vals.insert(g),
                t_vals: m.t_vals.insert(g),
                mask: m.mask.insert(g),
                t_mask: m.t_mask.insert(g),
                ..m
            }
        } else {
            RuleModel { pg: m.pg.push(g), ..m }
        };
        let m2 = RuleModel { ready: m1.ready.insert(g), t_ready: m1.t_ready.insert(g), ..m1 };
        if m1.ready.contains(g) {
            if g == p && mem_putter {
                Ok(
                    RuleModel {
                        full: m2.full.insert(g),
                        t_full: m2.t_full.insert(g),
                        mask: m2.mask.remove(g),
                        vals: m2.vals.remove(g),
                        ..m2
                    },
                )
            } else {
                Err(ProtoBuildErr::SynchronousFiring { loc_id: g })
            }
        } else {
            Ok(m2)
        }
    }
}

/// Processing, in order, the getters `gs`.
pub open spec fn getters_fold(
    kinds: Map<usize, LocKind>,
    types: Map<usize, TypeKey>,
    rule_id: usize,
    action_id: usize,
    p: usize,
    mem_putter: bool,
    m: RuleModel,
    gs: Seq<usize>,
) -> Result<RuleModel, ProtoBuildErr>
    decreases gs.len(),
{
    if gs.len() == 0 {
        Ok(m)
    } else {
        match getters_fold(kinds, types, rule_id, action_id, p, mem_putter, m, gs.drop_last()) {
            Ok(m1) => getter_step(kinds, types, rule_id, action_id, p, mem_putter, m1, gs.last()),
            Err(e) => Err(e),
        }
    }
}

/// Processing action `action_id` (with putter `p` and getters `getters`) of rule `rule_id`.
pub open spec fn action_step(
    kinds: Map<usize, LocKind>,
    types: Map<usize, TypeKey>,
    rule_id: usize,
    action_id: usize,
    m: RuleModel,
    p: usize,
    getters: Seq<usize>,
) -> Result<RuleModel, ProtoBuildErr> {
    if !kinds.contains_key(p) {
        Err(ProtoBuildErr::UnknownType { loc_id: p })
    } else if !kinds[p].spec_can_put() {
        Err(ProtoBuildErr::LocCannotPut { loc_id: p })
    } else if m.ready.contains(p) {
        Err(ProtoBuildErr::SynchronousFiring { loc_id: p })
    } else {
        let mem_putter = kinds[p].spec_is_mem();
        let m1 = if mem_putter {
            RuleModel {
                full: m.full.insert(p),
                t_full: m.t_full.insert(p),
                vals: m.vals.remove(p),
                mask: m.mask.insert(p),
                t_mask: m.t_mask.insert(p),
                ..m
            }
        } else {
            m
        };
        let m2 = RuleModel {
            ready: m1.ready.insert(p),
            t_ready: m1.t_ready.insert(p),
            mg: Seq::empty(),
            pg: Seq::empty(),
            ..m1
        };
        match getters_fold(
            kinds,
            types,
            rule_id,
            action_id,
            p,
            mem_putter,
            m2,
            unique_seq(getters),
        ) {
            Ok(m3) => Ok(RuleModel { actions: m3.actions.push((p, m3.mg, m3.pg)), ..m3 }),
            Err(e) => Err(e),
        }
    }
}

/// Processing, in order, the actions `acts` of rule `rule_id`.
pub open spec fn actions_fold(
    kinds: Map<usize, LocKind>,
    types: Map<usize, TypeKey>,
    rule_id: usize,
    acts: Seq<ActionDef>,
) -> Result<RuleModel, ProtoBuildErr>
    decreases acts.len(),
{
    if acts.len() == 0 {
        Ok(empty_model())
    } else {
        match actions_fold(kinds, types, rule_id, acts.drop_last()) {
            Ok(m) => action_step(
                kinds,
                types,
                rule_id,
                (acts.len() - 1) as usize,
                m,
                acts.last().putter,
                acts.last().getters@,
            ),
            Err(e) => Err(e),
        }
    }
}

/// The locations the actions `acts` use: every putter and every getter.
pub open spec fn used_locs(acts: Seq<ActionDef>) -> Set<usize>
    decreases acts.len(),
{
    if acts.len() == 0 {
        Set::empty()
    } else {
        used_locs(acts.drop_last()).insert(acts.last().putter).union(acts.last().getters@.to_set())
    }
}

proof fn lemma_unique_seq_set(s: Seq<usize>)
    ensures
        unique_seq(s).to_set() == s.to_set(),
    decreases s.len(),
{
    if s.len() > 0 {
        lemma_unique_seq_set(s.drop_last());
        assert(s.to_set() =~= s.drop_last().to_set().insert(s.last())) by {
            assert forall|x: usize| s.to_set().contains(x) <==> s.drop_last().to_set().insert(s.last()).contains(x) by {
                if s.to_set().contains(x) && x != s.last() {
                    let i = choose|i: int| 0 <= i < s.len() && s[i] == x;
                    assert(i < s.len() - 1);
                    assert(s.drop_last()[i] == x);
                }
                if s.drop_last().to_set().contains(x) {
                    let i = choose|i: int| 0 <= i < s.len() - 1 && s.drop_last()[i] == x;
                    assert(s[i] == x);
                }
                if x == s.last() {
                    assert(s[s.len() - 1] == x);
                }
            }
        }
        let u = unique_seq(s.drop_last());
        if s.drop_last().contains(s.last()) {
            assert(s.drop_last().to_set().contains(s.last()));
            assert(unique_seq(s).to_set() =~= s.to_set());
        } else {
            assert(u.push(s.last()).to_set() =~= u.to_set().insert(s.last())) by {
                assert forall|x: usize| u.push(s.last()).to_set().contains(x) <==> u.to_set().insert(s.last()).contains(x) by {
                    if u.push(s.last()).to_set().contains(x) && x != s.last() {
                        let i = choose|i: int| 0 <= i < u.len() + 1 && u.push(s.last())[i] == x;
                        assert(i < u.len());
                        assert(u[i] == x);
                    }
                    if u.to_set().contains(x) {
                        let i = choose|i: int| 0 <= i < u.len() && u[i] == x;
                        assert(u.push(s.last())[i] == x);
                    }
                    if x == s.last() {
                        assert(u.push(s.last())[u.len() as int] == x);
                    }
                }
            }
        }
    } else {
        assert(unique_seq(s).to_set() =~= s.to_set());
    }
}

proof fn lemma_getters_ready(
    kinds: Map<usize, LocKind>,
    types: Map<usize, TypeKey>,
    rule_id: usize,
    action_id: usize,
    p: usize,
    mem_putter: bool,
    m: RuleModel,
    gs: Seq<usize>,
)
    ensures
        getters_fold(kinds, types, rule_id, action_id, p, mem_putter, m, gs) matches Ok(m2) ==> m2.ready
            == m.ready.union(gs.to_set()),
    decreases gs.len(),
{
    if gs.len() > 0 {
        lemma_getters_ready(kinds, types, rule_id, action_id, p, mem_putter, m, gs.drop_last());
        assert(gs.to_set() =~= gs.drop_last().to_set().insert(gs.last())) by {
            assert forall|x: usize| gs.to_set().contains(x) <==> gs.drop_last().to_set().insert(gs.last()).contains(x) by {
                if gs.to_set().contains(x) && x != gs.last() {
                    let i = choose|i: int| 0 <= i < gs.len() && gs[i] == x;
                    assert(gs.drop_last()[i] == x);
                }
                if gs.drop_last().to_set().contains(x) {
                    let i = choose|i: int| 0 <= i < gs.len() - 1 && gs.drop_last()[i] == x;
                    assert(gs[i] == x);
                }
                if x == gs.last() {
                    assert(gs[gs.len() - 1] == x);
                }
            }
        }
        match getters_fold(kinds, types, rule_id, action_id, p, mem_putter, m, gs.drop_last()) {
            Ok(m1) => {
                if let Ok(m2) = getter_step(kinds, types, rule_id, action_id, p, mem_putter, m1, gs.last()) {
                    assert(m2.ready =~= m.ready.union(gs.to_set()));
                }
            },
            Err(_) => {},
        }
    } else {
        assert(m.ready.union(gs.to_set()) =~= m.ready);
    }
}

/// A compiled rule requires ready exactly the locations its actions use: every putter
/// and every getter.
pub proof fn law_guard_ready_is_used_locs(
    kinds: Map<usize, LocKind>,
    types: Map<usize, TypeKey>,
    rule_id: usize,
    acts: Seq<ActionDef>,
)
    ensures
        actions_fold(kinds, types, rule_id, acts) matches Ok(m) ==> m.ready == used_locs(acts),
    decreases acts.len(),
{
    if acts.len() > 0 {
        law_guard_ready_is_used_locs(kinds, types, rule_id, acts.drop_last());
        if let Ok(m) = actions_fold(kinds, types, rule_id, acts.drop_last()) {
            let p = acts.last().putter;
            let getters = acts.last().getters@;
            if kinds.contains_key(p) && kinds[p].spec_can_put() && !m.ready.contains(p) {
                let mem_putter = kinds[p].spec_is_mem();
                let m1 = if mem_putter {
                    RuleModel {
                        full: m.full.insert(p),
                        t_full: m.t_full.insert(p),
                        vals: m.vals.remove(p),
                        mask: m.mask.insert(p),
                        t_mask: m.t_mask.insert(p),
                        ..m
                    }
                } else {
                    m
                };
                let m2 = RuleModel {
                    ready: m1.ready.insert(p),
                    t_ready: m1.t_ready.insert(p),
                    mg: Seq::empty(),
                    pg: Seq::empty(),
                    ..m1
                };
                lemma_getters_ready(kinds, types, rule_id, (acts.len() - 1) as usize, p, mem_putter, m2, unique_seq(getters));
                lemma_unique_seq_set(getters);
                if let Ok(m3) = actions_fold(kinds, types, rule_id, acts) {
                    assert(m3.ready =~= used_locs(acts));
                }
            }
        }
    }
}

proof fn lemma_unique_seq_no_duplicates(s: Seq<usize>)
    ensures
        unique_seq(s).no_duplicates(),
    decreases s.len(),
{
    if s.len() > 0 {
        lemma_unique_seq_no_duplicates(s.drop_last());
        if !s.drop_last().contains(s.last()) {
            let u = unique_seq(s.drop_last());
            lemma_unique_seq_set(s.drop_last());
            assert(!u.contains(s.last())) by {
                if u.contains(s.last()) {
                    assert(u.to_set().contains(s.last()));
                    assert(s.drop_last().to_set().contains(s.last()));
                }
            }
            assert forall|i: int, j: int| 0 <= i < j < u.len() + 1 implies u.push(s.last())[i] != u.push(s.last())[j] by {
                if j == u.len() {
                    assert(u.push(s.last())[i] == u[i]);
                }
            }
        }
    }
}

/// What the getters' fold refuses as a double use, and what it lets through: with
/// getters `gs` without repeats, a getter is refused as firing twice exactly when it is
/// already ready (and is not the memory putter taking its own datum back).
proof fn lemma_getters_sync(
    kinds: Map<usize, LocKind>,
    types: Map<usize, TypeKey>,
    rule_id: usize,
    action_id: usize,
    p: usize,
    mem_putter: bool,
    m: RuleModel,
    gs: Seq<usize>,
)
    requires
        gs.no_duplicates(),
    ensures
        getters_fold(kinds, types, rule_id, action_id, p, mem_putter, m, gs) is Ok ==> forall|i: int|
            0 <= i < gs.len() ==> !m.ready.contains(#[trigger] gs[i]) || (gs[i] == p && mem_putter),
        getters_fold(kinds, types, rule_id, action_id, p, mem_putter, m, gs) matches Err(
            ProtoBuildErr::SynchronousFiring { loc_id },
        ) ==> gs.contains(loc_id) && m.ready.contains(loc_id) && !(loc_id == p && mem_putter),
    decreases gs.len(),
{
    if gs.len() > 0 {
        let pre = gs.drop_last();
        let g = gs.last();
        lemma_getters_sync(kinds, types, rule_id, action_id, p, mem_putter, m, pre);
        lemma_getters_ready(kinds, types, rule_id, action_id, p, mem_putter, m, pre);
        assert(!pre.contains(g)) by {
            if pre.contains(g) {
                let i = choose|i: int| 0 <= i < pre.len() && pre[i] == g;
                assert(gs[i] == gs[gs.len() - 1]);
            }
        }
        match getters_fold(kinds, types, rule_id, action_id, p, mem_putter, m, pre) {
            Ok(m1) => {
                assert(m1.ready == m.ready.union(pre.to_set()));
                assert(m1.ready.contains(g) ==> m.ready.contains(g)) by {
                    if m1.ready.contains(g) && !m.ready.contains(g) {
                        assert(pre.to_set().contains(g));
                    }
                }
                if getter_step(kinds, types, rule_id, action_id, p, mem_putter, m1, g) is Ok {
                    assert forall|i: int| 0 <= i < gs.len() implies !m.ready.contains(#[trigger] gs[i]) || (gs[i] == p
                        && mem_putter) by {
                        if i < gs.len() - 1 {
                            assert(gs[i] == pre[i]);
                        } else {
                            if m.ready.contains(g) {
                                assert(m1.ready.contains(g));
                            }
                        }
                    }
                }
                if let Err(ProtoBuildErr::SynchronousFiring { loc_id }) = getter_step(
                    kinds,
                    types,
                    rule_id,
                    action_id,
                    p,
                    mem_putter,
                    m1,
                    g,
                ) {
                    assert(loc_id == g);
                    assert(gs.contains(g)) by {
                        assert(gs[gs.len() - 1] == g);
                    }
                }
            },
            Err(e) => {
                if let ProtoBuildErr::SynchronousFiring { loc_id } = e {
                    let i = choose|i: int| 0 <= i < pre.len() && pre[i] == loc_id;
                    assert(gs[i] == loc_id);
                }
            },
        }
    }
}

/// Whether action `a` uses location `l`, as its putter or as a getter.
pub open spec fn uses(a: ActionDef, l: usize) -> bool {
    a.putter == l || a.getters@.contains(l)
}

/// Location `l` is used twice by the actions `acts`: by two of them, or as both the
/// putter and a getter of one whose putter is not a memory cell (a memory cell may take
/// its own datum back).
pub open spec fn used_twice(kinds: Map<usize, LocKind>, acts: Seq<ActionDef>, l: usize) -> bool {
    exists|i: int|
        0 <= i < acts.len() && #[trigger] uses(acts[i], l) && (used_locs(acts.take(i)).contains(l) || (acts[i].putter
            == l && acts[i].getters@.contains(l) && !(kinds.contains_key(l) && kinds[l].spec_is_mem())))
}

/// A rule is refused as firing a location twice exactly for a double use: a rule that
/// compiles uses no location twice, and the location a `SynchronousFiring` refusal names
/// is used twice.
pub proof fn law_synchronous_firing_is_double_use(
    kinds: Map<usize, LocKind>,
    types: Map<usize, TypeKey>,
    rule_id: usize,
    acts: Seq<ActionDef>,
)
    ensures
        actions_fold(kinds, types, rule_id, acts) is Ok ==> forall|l: usize| !used_twice(kinds, acts, l),
        actions_fold(kinds, types, rule_id, acts) matches Err(ProtoBuildErr::SynchronousFiring { loc_id }) ==> used_twice(
            kinds,
            acts,
            loc_id,
        ),
    decreases acts.len(),
{
    if acts.len() > 0 {
        let pre = acts.drop_last();
        let last = (acts.len() - 1) as int;
        law_synchronous_firing_is_double_use(kinds, types, rule_id, pre);
        law_guard_ready_is_used_locs(kinds, types, rule_id, pre);
        assert(acts.take(last) =~= pre);
        assert forall|i: int| 0 <= i < last implies #[trigger] acts.take(i) == pre.take(i) && acts[i] == pre[i] by {
            assert(acts.take(i) =~= pre.take(i));
        }
        match actions_fold(kinds, types, rule_id, pre) {
            Err(e) => {
                if let ProtoBuildErr::SynchronousFiring { loc_id } = e {
                    let i = choose|i: int|
                        0 <= i < pre.len() && #[trigger] uses(pre[i], loc_id) && (used_locs(pre.take(i)).contains(loc_id)
                            || (pre[i].putter == loc_id && pre[i].getters@.contains(loc_id) && !(kinds.contains_key(loc_id)
                            && kinds[loc_id].spec_is_mem())));
                    assert(acts.take(i) == pre.take(i) && acts[i] == pre[i]);
                    assert(uses(acts[i], loc_id));
                }
            },
            Ok(m) => {
                assert(m.ready == used_locs(pre));
                let p = acts[last].putter;
                let getters = acts[last].getters@;
                if kinds.contains_key(p) && kinds[p].spec_can_put() && !m.ready.contains(p) {
                    let mem_putter = kinds[p].spec_is_mem();
                    let m1 = if mem_putter {
                        RuleModel {
                            full: m.full.insert(p),
                            t_full: m.t_full.insert(p),
                            vals: m.vals.remove(p),
                            mask: m.mask.insert(p),
                            t_mask: m.t_mask.insert(p),
                            ..m
                        }
                    } else {
                        m
                    };
                    let m2 = RuleModel {
                        ready: m1.ready.insert(p),
                        t_ready: m1.t_ready.insert(p),
                        mg: Seq::empty(),
                        pg: Seq::empty(),
                        ..m1
                    };
                    let gs = unique_seq(getters);
                    lemma_unique_seq_no_duplicates(getters);
                    lemma_unique_seq_set(getters);
                    lemma_getters_sync(kinds, types, rule_id, last as usize, p, mem_putter, m2, gs);
                    assert forall|x: usize| gs.contains(x) <==> getters.contains(x) by {
                        if gs.contains(x) {
                            assert(gs.to_set().contains(x));
                            assert(getters.to_set().contains(x));
                        }
                        if getters.contains(x) {
                            assert(getters.to_set().contains(x));
                            assert(gs.to_set().contains(x));
                        }
                    }
                    if actions_fold(kinds, types, rule_id, acts) is Ok {
                        assert forall|l: usize| !used_twice(kinds, acts, l) by {
                            if used_twice(kinds, acts, l) {
                                let i = choose|i: int|
                                    0 <= i < acts.len() && #[trigger] uses(acts[i], l) && (used_locs(acts.take(i)).contains(l)
                                        || (acts[i].putter == l && acts[i].getters@.contains(l) && !(kinds.contains_key(l)
                                        && kinds[l].spec_is_mem())));
                                if i < last {
                                    assert(acts.take(i) == pre.take(i) && acts[i] == pre[i]);
                                    assert(used_twice(kinds, pre, l));
                                } else {
                                    if getters.contains(l) {
                                        let j = choose|j: int| 0 <= j < gs.len() && gs[j] == l;
                                        assert(!m2.ready.contains(gs[j]) || (gs[j] == p && mem_putter));
                                    }
                                }
                            }
                        }
                    }
                    if let Err(ProtoBuildErr::SynchronousFiring { loc_id }) = actions_fold(kinds, types, rule_id, acts) {
                        assert(uses(acts[last], loc_id));
                    }
                } else if let Err(ProtoBuildErr::SynchronousFiring { loc_id }) = actions_fold(kinds, types, rule_id, acts) {
                    assert(loc_id == p);
                    assert(uses(acts[last], p));
                }
            },
        }
    }
}

/// The getters' fold leaves the mask and value bits of `x` as they were, when `x` is no
/// getter, or is already ready (and not the memory putter taking its own datum back).
proof fn lemma_getters_keep(
    kinds: Map<usize, LocKind>,
    types: Map<usize, TypeKey>,
    rule_id: usize,
    action_id: usize,
    p: usize,
    mem_putter: bool,
    m: RuleModel,
    gs: Seq<usize>,
    x: usize,
)
    requires
        !gs.contains(x) || (m.ready.contains(x) && !(x == p && mem_putter)),
    ensures
        getters_fold(kinds, types, rule_id, action_id, p, mem_putter, m, gs) matches Ok(m2) ==> m2.mask.contains(x)
            == m.mask.contains(x) && m2.vals.contains(x) == m.vals.contains(x) && m2.full.contains(x)
            == m.full.contains(x),
    decreases gs.len(),
{
    if gs.len() > 0 {
        let pre = gs.drop_last();
        let g = gs.last();
        if pre.contains(x) {
            let w = choose|w: int| 0 <= w < pre.len() && pre[w] == x;
            assert(gs[w] == x);
        }
        lemma_getters_keep(kinds, types, rule_id, action_id, p, mem_putter, m, pre, x);
        lemma_getters_ready(kinds, types, rule_id, action_id, p, mem_putter, m, pre);
        if g == x {
            assert(gs[gs.len() - 1] == x);
        }
    }
}

/// The putter of action `i` is among the locations the actions use.
proof fn lemma_used_putter(acts: Seq<ActionDef>, i: int)
    requires
        0 <= i < acts.len(),
    ensures
        used_locs(acts).contains(acts[i].putter),
    decreases acts.len(),
{
    if i < acts.len() - 1 {
        lemma_used_putter(acts.drop_last(), i);
    }
}

/// In the model of a compiled rule, a memory cell that is the putter of an action and not
/// among that action's getters is in the assignment mask and not in the values.
proof fn lemma_mem_putter_model(
    kinds: Map<usize, LocKind>,
    types: Map<usize, TypeKey>,
    rule_id: usize,
    acts: Seq<ActionDef>,
    i: int,
)
    requires
        0 <= i < acts.len(),
        kinds.contains_key(acts[i].putter),
        kinds[acts[i].putter].spec_is_mem(),
        !acts[i].getters@.contains(acts[i].putter),
    ensures
        actions_fold(kinds, types, rule_id, acts) matches Ok(m) ==> m.mask.contains(acts[i].putter)
            && !m.vals.contains(acts[i].putter) && m.full.contains(acts[i].putter),
    decreases acts.len(),
{
    let pre = acts.drop_last();
    let last = acts.len() - 1;
    let x = acts[i].putter;
    if i < last {
        assert(pre[i] == acts[i]);
        lemma_mem_putter_model(kinds, types, rule_id, pre, i);
    }
    if let Ok(m) = actions_fold(kinds, types, rule_id, pre) {
        law_guard_ready_is_used_locs(kinds, types, rule_id, pre);
        if i < last {
            lemma_used_putter(pre, i);
        }
        let q = acts[last].putter;
        let getters = acts[last].getters@;
        if kinds.contains_key(q) && kinds[q].spec_can_put() && !m.ready.contains(q) {
            let mem_putter = kinds[q].spec_is_mem();
            let m1 = if mem_putter {
                RuleModel {
                    full: m.full.insert(q),
                    t_full: m.t_full.insert(q),
                    vals: m.vals.remove(q),
                    mask: m.mask.insert(q),
                    t_mask: m.t_mask.insert(q),
                    ..m
                }
            } else {
                m
            };
            let m2 = RuleModel {
                ready: m1.ready.insert(q),
                t_ready: m1.t_ready.insert(q),
                mg: Seq::empty(),
                pg: Seq::empty(),
                ..m1
            };
            let gs = unique_seq(getters);
            lemma_unique_seq_set(getters);
            if i == last {
                assert(!gs.contains(x)) by {
                    if gs.contains(x) {
                        assert(gs.to_set().contains(x));
                        assert(getters.to_set().contains(x));
                    }
                }
            }
            lemma_getters_keep(kinds, types, rule_id, last as usize, q, mem_putter, m2, gs, x);
        }
    }
}

/// The getters' fold makes a memory getter `g` (not the putter) full in the assignment,
/// and no longer required full.
proof fn lemma_getter_sets(
    kinds: Map<usize, LocKind>,
    types: Map<usize, TypeKey>,
    rule_id: usize,
    action_id: usize,
    p: usize,
    mem_putter: bool,
    m: RuleModel,
    gs: Seq<usize>,
    g: usize,
)
    requires
        gs.contains(g),
        gs.no_duplicates(),
        g != p,
    ensures
        getters_fold(kinds, types, rule_id, action_id, p, mem_putter, m, gs) matches Ok(m2) ==> (kinds.contains_key(g)
            && kinds[g].spec_is_mem() ==> m2.mask.contains(g) && m2.vals.contains(g) && !m2.full.contains(g)),
    decreases gs.len(),
{
    let pre = gs.drop_last();
    if gs.last() != g {
        let w = choose|w: int| 0 <= w < gs.len() && gs[w] == g;
        assert(pre[w] == g);
        assert(pre.no_duplicates());
        lemma_getter_sets(kinds, types, rule_id, action_id, p, mem_putter, m, pre, g);
    }
}

/// The putter and getters of action `i` are among the locations the actions use.
proof fn lemma_used_getter(acts: Seq<ActionDef>, i: int, g: usize)
    requires
        0 <= i < acts.len(),
        acts[i].getters@.contains(g),
    ensures
        used_locs(acts).contains(g),
    decreases acts.len(),
{
    if i < acts.len() - 1 {
        lemma_used_getter(acts.drop_last(), i, g);
    } else {
        assert(acts.last().getters@.to_set().contains(g));
    }
}

/// In the model of a compiled rule, a memory cell that is a getter of an action (and not
/// its putter) is assigned full and is not required full.
proof fn lemma_mem_getter_model(
    kinds: Map<usize, LocKind>,
    types: Map<usize, TypeKey>,
    rule_id: usize,
    acts: Seq<ActionDef>,
    i: int,
    g: usize,
)
    requires
        0 <= i < acts.len(),
        acts[i].getters@.contains(g),
        g != acts[i].putter,
        kinds.contains_key(g),
        kinds[g].spec_is_mem(),
    ensures
        actions_fold(kinds, types, rule_id, acts) matches Ok(m) ==> m.mask.contains(g) && m.vals.contains(g)
            && !m.full.contains(g),
    decreases acts.len(),
{
    let pre = acts.drop_last();
    let last = acts.len() - 1;
    if i < last {
        assert(pre[i] == acts[i]);
        lemma_mem_getter_model(kinds, types, rule_id, pre, i, g);
    }
    if let Ok(m) = actions_fold(kinds, types, rule_id, pre) {
        law_guard_ready_is_used_locs(kinds, types, rule_id, pre);
        if i < last {
            lemma_used_getter(pre, i, g);
        }
        let q = acts[last].putter;
        let getters = acts[last].getters@;
        if kinds.contains_key(q) && kinds[q].spec_can_put() && !m.ready.contains(q) {
            let mem_putter = kinds[q].spec_is_mem();
            let m1 = if mem_putter {
                RuleModel {
                    full: m.full.insert(q),
                    t_full: m.t_full.insert(q),
                    vals: m.vals.remove(q),
                    mask: m.mask.insert(q),
                    t_mask: m.t_mask.insert(q),
                    ..m
                }
            } else {
                m
            };
            let m2 = RuleModel {
                ready: m1.ready.insert(q),
                t_ready: m1.t_ready.insert(q),
                mg: Seq::empty(),
                pg: Seq::empty(),
                ..m1
            };
            let gs = unique_seq(getters);
            lemma_unique_seq_set(getters);
            lemma_unique_seq_no_duplicates(getters);
            if i == last {
                assert(gs.contains(g)) by {
                    assert(getters.to_set().contains(g));
                    assert(gs.to_set().contains(g));
                }
                lemma_getter_sets(kinds, types, rule_id, last as usize, q, mem_putter, m2, gs, g);
            } else {
                lemma_getters_keep(kinds, types, rule_id, last as usize, q, mem_putter, m2, gs, g);
            }
        }
    }
}

proof fn lemma_assign_clears(mv: usize, av: usize, am: usize, b: usize)
    requires
        b < usize::BITS,
        (am >> b) & 1usize == 1usize,
        (av >> b) & 1usize != 1usize,
    ensures
        (((mv | (av & am)) & (av | !am)) >> b) & 1usize != 1usize,
{
    assert((((mv | (av & am)) & (av | !am)) >> b) & 1usize != 1usize) by (bit_vector)
        requires
            b < usize::BITS,
            (am >> b) & 1usize == 1usize,
            (av >> b) & 1usize != 1usize,
    ;
}

/// A compiled rule empties every memory cell it moves a datum out of, unless that cell
/// takes the datum back: the cell's bit is set in the rule's assignment mask and clear in
/// its assigned values, so applying the rule to memory bits clears it (where the values
/// reach that far; they are padded to the protocol's locations).
pub proof fn law_mem_putter_emptied(
    kinds: Map<usize, LocKind>,
    types: Map<usize, TypeKey>,
    rule_id: usize,
    acts: Seq<ActionDef>,
    m: RuleModel,
    r: RunRule,
    c: usize,
    guard: Formula,
    i: int,
)
    requires
        actions_fold(kinds, types, rule_id, acts) == Ok::<RuleModel, ProtoBuildErr>(m),
        rule_is(r, m, c, guard),
        0 <= i < acts.len(),
        kinds.contains_key(acts[i].putter),
        kinds[acts[i].putter].spec_is_mem(),
        !acts[i].getters@.contains(acts[i].putter),
    ensures
        seq_has(r.assign_mask@, acts[i].putter as int),
        !seq_has(r.assign_vals@, acts[i].putter as int),
        seq_has(r.guard_full@, acts[i].putter as int),
        forall|mem: Seq<usize>|
            (acts[i].putter as int) / crate::bits::wbits() < r.assign_vals@.len() ==> !#[trigger] seq_has(
                assign_chunks(mem, r.assign_vals@, r.assign_mask@),
                acts[i].putter as int,
            ),
{
    let p = acts[i].putter;
    lemma_mem_putter_model(kinds, types, rule_id, acts, i);
    assert(seq_has(r.assign_mask@, p as int) == m.mask.contains(p));
    assert(seq_has(r.assign_vals@, p as int) == m.vals.contains(p));
    assert(seq_has(r.guard_full@, p as int) == m.full.contains(p));
    assert forall|mem: Seq<usize>|
        (p as int) / crate::bits::wbits() < r.assign_vals@.len() implies !#[trigger] seq_has(
        assign_chunks(mem, r.assign_vals@, r.assign_mask@),
        p as int,
    ) by {
        crate::bitset::lemma_index_split(p as int);
        crate::bits::lemma_wbits();
        let ci = (p as int) / crate::bits::wbits();
        let b = ((p as int) % crate::bits::wbits()) as usize;
        let out = assign_chunks(mem, r.assign_vals@, r.assign_mask@);
        if ci < mem.len() {
            lemma_assign_clears(mem[ci], r.assign_vals@[ci], r.assign_mask@[ci], b);
            assert(out[ci] == (mem[ci] | (r.assign_vals@[ci] & r.assign_mask@[ci])) & (r.assign_vals@[ci]
                | !r.assign_mask@[ci]));
        }
    }
}

/// A compiled rule fills every memory cell it moves a datum into (other than a putter
/// taking its own datum back): the cell's bit is set in the rule's assignment mask and in
/// its assigned values, and the rule does not require the cell full.
pub proof fn law_mem_getter_filled(
    kinds: Map<usize, LocKind>,
    types: Map<usize, TypeKey>,
    rule_id: usize,
    acts: Seq<ActionDef>,
    m: RuleModel,
    r: RunRule,
    c: usize,
    guard: Formula,
    i: int,
    g: usize,
)
    requires
        actions_fold(kinds, types, rule_id, acts) == Ok::<RuleModel, ProtoBuildErr>(m),
        rule_is(r, m, c, guard),
        0 <= i < acts.len(),
        acts[i].getters@.contains(g),
        g != acts[i].putter,
        kinds.contains_key(g),
        kinds[g].spec_is_mem(),
    ensures
        seq_has(r.assign_mask@, g as int),
        seq_has(r.assign_vals@, g as int),
        !seq_has(r.guard_full@, g as int),
{
    lemma_mem_getter_model(kinds, types, rule_id, acts, i, g);
    assert(seq_has(r.assign_mask@, g as int) == m.mask.contains(g));
    assert(seq_has(r.assign_vals@, g as int) == m.vals.contains(g));
    assert(seq_has(r.guard_full@, g as int) == m.full.contains(g));
}

/// The bitset `bs` holds exactly `set`, grown as far as setting the indices `t`
/// and then padding to capacity `c` makes it.
pub open spec fn bitset_is(bs: BitSet, set: Set<usize>, t: Set<usize>, c: usize) -> bool {
    &&& bits_match(bs@, set)
    &&& bs@.len() == final_len(t, c)
}

/// The runnable rule `r` is what compilation with final state `m` produces under capacity `c`.
pub open spec fn rule_is(r: RunRule, m: RuleModel, c: usize, guard: Formula) -> bool {
    &&& bitset_is(r.guard_ready, m.ready, m.t_ready, c)
    &&& bitset_is(r.guard_full, m.full, m.t_full, c)
    &&& bitset_is(r.assign_vals, m.vals, m.t_vals, c)
    &&& bitset_is(r.assign_mask, m.mask, m.t_mask, c)
    &&& r.guard_pred == guard
    &&& r.actions@.len() == m.actions.len()
    &&& forall|i: int|
        0 <= i < m.actions.len() ==> {
            &&& (#[trigger] r.actions@[i]).putter == m.actions[i].0
            &&& loc_list_contents(r.actions@[i].mg) == m.actions[i].1
            &&& loc_list_contents(r.actions@[i].pg) == m.actions[i].2
        }
}

/// The exec bitsets follow the model's sets and touched indices.
pub open spec fn tracking(
    gr: BitSet,
    gf: BitSet,
    av: BitSet,
    am: BitSet,
    m: RuleModel,
    kinds: Map<usize, LocKind>,
) -> bool {
    &&& bits_match(gr@, m.ready) && len_covers(m.t_ready, gr@.len()) && m.ready.subset_of(
        m.t_ready,
    )
    &&& bits_match(gf@, m.full) && len_covers(m.t_full, gf@.len()) && m.full.subset_of(
        m.t_full,
    )
    &&& bits_match(av@, m.vals) && len_covers(m.t_vals, av@.len()) && m.vals.subset_of(
        m.t_vals,
    )
    &&& bits_match(am@, m.mask) && len_covers(m.t_mask, am@.len()) && m.mask.subset_of(
        m.t_mask,
    )
    &&& m.t_ready.subset_of(kinds.dom())
    &&& m.t_full.subset_of(kinds.dom())
    &&& m.t_vals.subset_of(kinds.dom())
    &&& m.t_mask.subset_of(kinds.dom())
}

/// Every key of `kinds` is at most `c`.
pub open spec fn keys_at_most(kinds: Map<usize, LocKind>, c: usize) -> bool {
    forall|k: usize| #[trigger] kinds.contains_key(k) ==> k <= c
}

/// `types` gives a type to every key of `kinds`.
pub open spec fn types_cover(kinds: Map<usize, LocKind>, types: Seq<Option<TypeKey>>) -> bool {
    forall|k: usize| #[trigger] kinds.contains_key(k) ==> k < types.len() && types[k as int] is Some
}

/// The type of each key of `kinds`, as `types` gives it.
pub open spec fn type_map(kinds: Map<usize, LocKind>, types: Seq<Option<TypeKey>>) -> Map<
    usize,
    TypeKey,
> {
    Map::new(|k: usize| kinds.contains_key(k), |k: usize| types[k as int]->0)
}

proof fn lemma_track_pad(bs: Seq<usize>, set: Set<usize>, t: Set<usize>, c: usize, kinds: Map<usize, LocKind>)
    requires
        bits_match(bs, set),
        len_covers(t, bs.len()),
        set.subset_of(t),
        t.subset_of(kinds.dom()),
        keys_at_most(kinds, c),
    ensures
        bits_match(padded(bs, chunks_for(c as nat)), set),
        padded(bs, chunks_for(c as nat)).len() == final_len(t, c),
{
    assert forall|i: usize| #[trigger] t.contains(i) implies i <= c by {
        assert(kinds.contains_key(i));
    }
    lemma_pad_len(t, bs.len(), c);
    let p = padded(bs, chunks_for(c as nat));
    assert forall|i: int| #[trigger] crate::bitset::seq_has(p, i) == crate::bitset::seq_has(bs, i) by {
        if i >= 0 && i / crate::bits::wbits() >= bs.len() && i / crate::bits::wbits() < p.len() {
            crate::bits::lemma_zero_has_no_bits((i % crate::bits::wbits()) as usize);
        }
    }
}


proof fn lemma_getters_prop(
    kinds: Map<usize, LocKind>,
    types: Map<usize, TypeKey>,
    rule_id: usize,
    action_id: usize,
    p: usize,
    mem_putter: bool,
    m0: RuleModel,
    gs: Seq<usize>,
    k: int,
)
    requires
        0 <= k <= gs.len(),
        getters_fold(kinds, types, rule_id, action_id, p, mem_putter, m0, gs.subrange(0, k)) is Err,
    ensures
        getters_fold(kinds, types, rule_id, action_id, p, mem_putter, m0, gs) == getters_fold(
            kinds,
            types,
            rule_id,
            action_id,
            p,
            mem_putter,
            m0,
            gs.subrange(0, k),
        ),
    decreases gs.len() - k,
{
    if k == gs.len() {
        assert(gs.subrange(0, k) == gs);
    } else {
        assert(gs.subrange(0, k + 1).drop_last() == gs.subrange(0, k));
        lemma_getters_prop(kinds, types, rule_id, action_id, p, mem_putter, m0, gs, k + 1);
    }
}

proof fn lemma_getter_err(
    kinds: Map<usize, LocKind>,
    types: Map<usize, TypeKey>,
    rule_id: usize,
    action_id: usize,
    p: usize,
    mem_putter: bool,
    m0: RuleModel,
    gs: Seq<usize>,
    k: int,
    m: RuleModel,
)
    requires
        0 <= k < gs.len(),
        getters_fold(kinds, types, rule_id, action_id, p, mem_putter, m0, gs.subrange(0, k)) == Ok::<
            RuleModel,
            ProtoBuildErr,
        >(m),
        getter_step(kinds, types, rule_id, action_id, p, mem_putter, m, gs[k]) is Err,
    ensures
        getters_fold(kinds, types, rule_id, action_id, p, mem_putter, m0, gs) == getter_step(
            kinds,
            types,
            rule_id,
            action_id,
            p,
            mem_putter,
            m,
            gs[k],
        ),
{
    assert(gs.subrange(0, k + 1).drop_last() == gs.subrange(0, k));
    assert(gs.subrange(0, k + 1).last() == gs[k]);
    lemma_getters_prop(kinds, types, rule_id, action_id, p, mem_putter, m0, gs, k + 1);
}

proof fn lemma_actions_prop(
    kinds: Map<usize, LocKind>,
    types: Map<usize, TypeKey>,
    rule_id: usize,
    acts: Seq<ActionDef>,
    k: int,
)
    requires
        0 <= k <= acts.len(),
        actions_fold(kinds, types, rule_id, acts.subrange(0, k)) is Err,
    ensures
        actions_fold(kinds, types, rule_id, acts) == actions_fold(kinds, types, rule_id, acts.subrange(0, k)),
    decreases acts.len() - k,
{
    if k == acts.len() {
        assert(acts.subrange(0, k) == acts);
    } else {
        assert(acts.subrange(0, k + 1).drop_last() == acts.subrange(0, k));
        lemma_actions_prop(kinds, types, rule_id, acts, k + 1);
    }
}

proof fn lemma_action_err(
    kinds: Map<usize, LocKind>,
    types: Map<usize, TypeKey>,
    rule_id: usize,
    acts: Seq<ActionDef>,
    k: int,
    m: RuleModel,
    e: ProtoBuildErr,
)
    requires
        0 <= k < acts.len(),
        actions_fold(kinds, types, rule_id, acts.subrange(0, k)) == Ok::<RuleModel, ProtoBuildErr>(m),
        action_step(kinds, types, rule_id, k as usize, m, acts[k].putter, acts[k].getters@)
            == Err::<RuleModel, ProtoBuildErr>(e),
    ensures
        actions_fold(kinds, types, rule_id, acts) == Err::<RuleModel, ProtoBuildErr>(e),
{
    assert(acts.subrange(0, k + 1).drop_last() == acts.subrange(0, k));
    assert(acts.subrange(0, k + 1).last() == acts[k]);
    lemma_actions_prop(kinds, types, rule_id, acts, k + 1);
}

/// Compiles rule `rule_id` of a protocol whose location kinds are `kinds`, with every
/// bitset padded to capacity `c` (the largest location id).
pub fn build_rule(
    kinds: &LocKindMap,
    types: &Vec<Option<TypeKey>>,
    c: usize,
    rule_id: usize,
    rule_def: RuleDef,
) -> (r: Result<RunRule, ProtoBuildErr>)
    requires
        types_cover(loc_kind_map_contents(*kinds), types@),
        keys_at_most(loc_kind_map_contents(*kinds), c),
    ensures
        match actions_fold(
            loc_kind_map_contents(*kinds),
            type_map(loc_kind_map_contents(*kinds), types@),
            rule_id,
            rule_def.actions@,
        ) {
            Ok(m) => r matches Ok(rr) && rule_is(rr, m, c, rule_def.guard),
            Err(e) => r == Err::<RunRule, ProtoBuildErr>(e),
        },
{
    let ghost kmap = loc_kind_map_contents(*kinds);
    let ghost tmap = type_map(kmap, types@);
    let ghost all_acts = rule_def.actions@;
    let RuleDef { guard, actions: action_defs } = rule_def;
    let mut guard_ready = BitSet::default();
    let mut guard_full = BitSet::default();
    let mut assign_vals = BitSet::default();
    let mut assign_mask = BitSet::default();
    let mut actions: Vec<RunAction> = Vec::new();
    let mut action_id: usize = 0;
    let ghost mut m = empty_model();
    assert(all_acts.subrange(0, 0) =~= Seq::<ActionDef>::empty());
    while action_id < action_defs.len()
        invariant
            action_defs@ == all_acts,
            all_acts == rule_def.actions@,
            kmap == loc_kind_map_contents(*kinds),
            tmap == type_map(kmap, types@),
            types_cover(kmap, types@),
            keys_at_most(kmap, c),
            action_id <= all_acts.len(),
            actions_fold(kmap, tmap, rule_id, all_acts.subrange(0, action_id as int)) == Ok::<
                RuleModel,
                ProtoBuildErr,
            >(m),
            tracking(guard_ready, guard_full, assign_vals, assign_mask, m, kmap),
            actions@.len() == m.actions.len(),
            forall|i: int|
                0 <= i < m.actions.len() ==> {
                    &&& (#[trigger] actions@[i]).putter == m.actions[i].0
                    &&& loc_list_contents(actions@[i].mg) == m.actions[i].1
                    &&& loc_list_contents(actions@[i].pg) == m.actions[i].2
                },
        decreases all_acts.len() - action_id,
    {
        let ghost prefix = all_acts.subrange(0, action_id as int);
        let ghost next = all_acts.subrange(0, action_id + 1);
        assert(next.drop_last() == prefix);
        assert(next.last() == all_acts[action_id as int]);
        let ghost m_before = m;
        let action_def = &action_defs[action_id];
        let p = action_def.putter;
        let p_kind = match kinds.get(p) {
            Some(k) => k,
            None => {
                proof {
                    lemma_action_err(kmap, tmap, rule_id, all_acts, action_id as int, m, ProtoBuildErr::UnknownType { loc_id: p });
                }
                return Err(ProtoBuildErr::UnknownType { loc_id: p });
            },
        };
        let p_type = match types[p] {
            Some(t) => t,
            None => {
                proof {
                    assert(kmap.contains_key(p));
                }
                return Err(ProtoBuildErr::UnknownType { loc_id: p });
            },
        };
        if !p_kind.can_put() {
            proof {
                lemma_action_err(kmap, tmap, rule_id, all_acts, action_id as int, m, ProtoBuildErr::LocCannotPut { loc_id: p });
            }
            return Err(ProtoBuildErr::LocCannotPut { loc_id: p });
        }
        let mem_putter = p_kind.is_mem();
        if guard_ready.test(p) {
            proof {
                lemma_action_err(kmap, tmap, rule_id, all_acts, action_id as int, m, ProtoBuildErr::SynchronousFiring { loc_id: p });
            }
            return Err(ProtoBuildErr::SynchronousFiring { loc_id: p });
        }
        if mem_putter {
            proof {
                lemma_track_set(guard_full@, m.full, m.t_full, p, true);
                lemma_track_set(assign_vals@, m.vals, m.t_vals, p, false);
                lemma_track_set(assign_mask@, m.mask, m.t_mask, p, true);
            }
            guard_full.set_to(p, true);
            assign_vals.set_to(p, false);
            assign_mask.set_to(p, true);
            proof {
                m = RuleModel {
                    full: m.full.insert(p),
                    t_full: m.t_full.insert(p),
                    vals: m.vals.remove(p),
                    mask: m.mask.insert(p),
                    t_mask: m.t_mask.insert(p),
                    ..m
                };
            }
        }
        proof {
            lemma_track_set(guard_ready@, m.ready, m.t_ready, p, true);
        }
        let was = guard_ready.set_to(p, true);
        proof {
            m = RuleModel {
                ready: m.ready.insert(p),
                t_ready: m.t_ready.insert(p),
                mg: Seq::empty(),
                pg: Seq::empty(),
                ..m
            };
        }
        if was {
            assert(false);
            return Err(ProtoBuildErr::SynchronousFiring { loc_id: p });
        }
        let ghost m_start = m;
        let gs = unique_ids(&action_def.getters);
        assert(all_acts[action_id as int].putter == p);
        assert(gs@ == unique_seq(all_acts[action_id as int].getters@));
        let mut mg = LocList::new();
        let mut pg = LocList::new();
        let mut gi: usize = 0;
        assert(gs@.subrange(0, 0) =~= Seq::<usize>::empty());
        while gi < gs.len()
            invariant
                kmap == loc_kind_map_contents(*kinds),
                tmap == type_map(kmap, types@),
                types_cover(kmap, types@),
                keys_at_most(kmap, c),
                kmap.contains_key(p),
                tmap[p] == p_type,
                action_defs@ == all_acts,
                all_acts == rule_def.actions@,
                action_id < all_acts.len(),
                all_acts[action_id as int].putter == p,
                gs@ == unique_seq(all_acts[action_id as int].getters@),
                actions_fold(kmap, tmap, rule_id, all_acts.subrange(0, action_id as int)) == Ok::<
                    RuleModel,
                    ProtoBuildErr,
                >(m_before),
                action_step(kmap, tmap, rule_id, action_id, m_before, p, all_acts[action_id as int].getters@)
                    == (match getters_fold(kmap, tmap, rule_id, action_id, p, mem_putter, m_start, gs@) {
                        Ok(m3) => Ok(RuleModel { actions: m3.actions.push((p, m3.mg, m3.pg)), ..m3 }),
                        Err(e) => Err(e),
                    }),
                mem_putter == kmap[p].spec_is_mem(),
                gi <= gs@.len(),
                getters_fold(kmap, tmap, rule_id, action_id, p, mem_putter, m_start, gs@.subrange(0, gi as int))
                    == Ok::<RuleModel, ProtoBuildErr>(m),
                tracking(guard_ready, guard_full, assign_vals, assign_mask, m, kmap),
                m.actions == m_start.actions,
                loc_list_contents(mg) == m.mg,
                loc_list_contents(pg) == m.pg,
            decreases gs@.len() - gi,
        {
            let ghost gprefix = gs@.subrange(0, gi as int);
            let ghost gnext = gs@.subrange(0, gi + 1);
            assert(gnext.drop_last() == gprefix);
            assert(gnext.last() == gs@[gi as int]);
            let g = gs[gi];
            let ghost m_prev = m;
            let g_kind = match kinds.get(g) {
                Some(k) => k,
                None => {
                    proof {
                        lemma_getter_err(kmap, tmap, rule_id, action_id, p, mem_putter, m_start, gs@, gi as int, m);
                        lemma_action_err(kmap, tmap, rule_id, all_acts, action_id as int, m_before, ProtoBuildErr::UnknownType { loc_id: g });
                    }
                    return Err(ProtoBuildErr::UnknownType { loc_id: g });
                },
            };
            let g_type = match types[g] {
                Some(t) => t,
                None => {
                    proof {
                        assert(kmap.contains_key(g));
                    }
                    return Err(ProtoBuildErr::UnknownType { loc_id: g });
                },
            };
            if p_type != g_type {
                proof {
                        lemma_getter_err(kmap, tmap, rule_id, action_id, p, mem_putter, m_start, gs@, gi as int, m);
                        lemma_action_err(kmap, tmap, rule_id, all_acts, action_id as int, m_before, ProtoBuildErr::TypeMismatch { rule_id, action_id, loc_id_putter: p, loc_id_getter: g });
                    }
                    return Err(
                    ProtoBuildErr::TypeMismatch {
                        rule_id,
                        action_id,
                        loc_id_putter: p,
                        loc_id_getter: g,
                    },
                );
            }
            if !g_kind.can_get() {
                proof {
                        lemma_getter_err(kmap, tmap, rule_id, action_id, p, mem_putter, m_start, gs@, gi as int, m);
                        lemma_action_err(kmap, tmap, rule_id, all_acts, action_id as int, m_before, ProtoBuildErr::LocCannotGet { loc_id: g });
                    }
                    return Err(ProtoBuildErr::LocCannotGet { loc_id: g });
            }
            let mem_getter = g_kind.is_mem();
            if mem_getter {
                mg.push(g);
                proof {
                    lemma_track_set(guard_full@, m.full, m.t_full, g, false);
                    lemma_track_set(assign_vals@, m.vals, m.t_vals, g, true);
                    lemma_track_set(assign_mask@, m.mask, m.t_mask, g, true);
                }
                guard_full.set_to(g, false);
                assign_vals.set_to(g, true);
                assign_mask.set_to(g, true);
                proof {
                    m = RuleModel {
                        mg: m.mg.push(g),
                        full: m.full.remove(g),
                        vals: m.vals.insert(g),
                        t_vals: m.t_vals.insert(g),
                        mask: m.mask.insert(g),
                        t_mask: m.t_mask.insert(g),
                        ..m
                    };
                }
            } else {
                pg.push(g);
                proof {
                    m = RuleModel { pg: m.pg.push(g), ..m };
                }
            }
            proof {
                lemma_track_set(guard_ready@, m.ready, m.t_ready, g, true);
            }
            let was_set = guard_ready.set_to(g, true);
            proof {
                m = RuleModel { ready: m.ready.insert(g), t_ready: m.t_ready.insert(g), ..m };
            }
            if was_set {
                if g == p && mem_putter {
                    proof {
                        lemma_track_set(guard_full@, m.full, m.t_full, g, true);
                        lemma_track_set(assign_mask@, m.mask, m.t_mask, g, false);
                        lemma_track_set(assign_vals@, m.vals, m.t_vals, g, false);
                    }
                    guard_full.set_to(g, true);
                    assign_mask.set_to(g, false);
                    assign_vals.set_to(g, false);
                    proof {
                        m = RuleModel {
                            full: m.full.insert(g),
                            t_full: m.t_full.insert(g),
                            mask: m.mask.remove(g),
                            vals: m.vals.remove(g),
                            ..m
                        };
                    }
                } else {
                    proof {
                        lemma_getter_err(kmap, tmap, rule_id, action_id, p, mem_putter, m_start, gs@, gi as int, m_prev);
                        lemma_action_err(kmap, tmap, rule_id, all_acts, action_id as int, m_before, ProtoBuildErr::SynchronousFiring { loc_id: g });
                    }
                    return Err(ProtoBuildErr::SynchronousFiring { loc_id: g });
                }
            }
            gi += 1;
        }
        assert(gs@.subrange(0, gs@.len() as int) == gs@);
        actions.push(RunAction { putter: p, mg, pg });
        proof {
            m = RuleModel { actions: m.actions.push((p, m.mg, m.pg)), ..m };
        }
        action_id += 1;
    }
    assert(all_acts.subrange(0, all_acts.len() as int) == all_acts);
    proof {
        lemma_track_pad(guard_ready@, m.ready, m.t_ready, c, kmap);
        lemma_track_pad(guard_full@, m.full, m.t_full, c, kmap);
        lemma_track_pad(assign_vals@, m.vals, m.t_vals, c, kmap);
        lemma_track_pad(assign_mask@, m.mask, m.t_mask, c, kmap);
    }
    guard_ready.pad_trailing_zeroes_to_capacity(c);
    guard_full.pad_trailing_zeroes_to_capacity(c);
    assign_vals.pad_trailing_zeroes_to_capacity(c);
    assign_mask.pad_trailing_zeroes_to_capacity(c);
    Ok(RunRule { guard_ready, guard_full, guard_pred: guard, assign_vals, assign_mask, actions })
}

/// Compiling, in order, the rules `rules`.
pub open spec fn rules_fold(
    kinds: Map<usize, LocKind>,
    types: Map<usize, TypeKey>,
    rules: Seq<RuleDef>,
) -> Result<Seq<RuleModel>, ProtoBuildErr>
    decreases rules.len(),
{
    if rules.len() == 0 {
        Ok(Seq::empty())
    } else {
        match rules_fold(kinds, types, rules.drop_last()) {
            Ok(ms) => match actions_fold(kinds, types, (rules.len() - 1) as usize, rules.last().actions@) {
                Ok(m) => Ok(ms.push(m)),
                Err(e) => Err(e),
            },
            Err(e) => Err(e),
        }
    }
}

/// `c` is the largest location id (zero when there is none).
pub open spec fn is_max_key(kinds: Map<usize, LocKind>, c: usize) -> bool {
    &&& keys_at_most(kinds, c)
    &&& (kinds.dom().is_empty() ==> c == 0)
    &&& (!kinds.dom().is_empty() ==> kinds.contains_key(c))
}

/// Location `id` needs no initial value, or has one.
pub open spec fn fill_ok(kinds: Map<usize, LocKind>, filled: Seq<bool>, id: usize) -> bool {
    (kinds.contains_key(id) && kinds[id] == LocKind::MemInitialized) ==> (id < filled.len()
        && filled[id as int])
}

/// Locations of the given kind.
pub open spec fn ids_where(kinds: Map<usize, LocKind>, pred: spec_fn(LocKind) -> bool) -> Set<usize> {
    Set::new(|k: usize| kinds.contains_key(k) && pred(kinds[k]))
}

pub open spec fn mem_init_ids(kinds: Map<usize, LocKind>) -> Set<usize> {
    Set::new(|k: usize| kinds.contains_key(k) && kinds[k] == LocKind::MemInitialized)
}

pub open spec fn mem_ids(kinds: Map<usize, LocKind>) -> Set<usize> {
    Set::new(|k: usize| kinds.contains_key(k) && kinds[k].spec_is_mem())
}

/// What occupies location `id`.
pub open spec fn space_of(kinds: Map<usize, LocKind>, id: usize) -> SpaceKind {
    if !kinds.contains_key(id) {
        SpaceKind::Unused
    } else {
        match kinds[id] {
            LocKind::PortPutter => SpaceKind::PoPu,
            LocKind::PortGetter => SpaceKind::PoGe,
            _ => SpaceKind::Memo,
        }
    }
}

/// The ports of the protocol, each with its role and type.
pub open spec fn port_infos(kinds: Map<usize, LocKind>, types: Map<usize, TypeKey>) -> Map<usize, PortInfo> {
    Map::new(
        |k: usize| kinds.contains_key(k) && (kinds[k] == LocKind::PortPutter || kinds[k] == LocKind::PortGetter),
        |k: usize| PortInfo {
            role: if kinds[k] == LocKind::PortPutter { PortRole::Putter } else { PortRole::Getter },
            type_key: types[k],
        },
    )
}

/// A freshly built coordinator for the protocol with location kinds `kinds`, types
/// `types`, largest location id `c`, rule definitions `rules` compiled to `ms`.
pub open spec fn core_built(
    core: ProtoCore,
    kinds: Map<usize, LocKind>,
    types: Map<usize, TypeKey>,
    c: usize,
    rules: Seq<RuleDef>,
    ms: Seq<RuleModel>,
) -> bool {
    &&& is_max_key(kinds, c)
    &&& core.spaces@.len() == c + 1
    &&& forall|i: int| 0 <= i <= c ==> #[trigger] core.spaces@[i] == space_of(kinds, i as usize)
    &&& bits_match(core.memory_bits@, mem_init_ids(kinds))
    &&& core.memory_bits@.len() == final_len(mem_init_ids(kinds), c)
    &&& bits_match(core.ready@, mem_ids(kinds))
    &&& len_covers(mem_ids(kinds), core.ready@.len())
    &&& core.ready_tentative@ == Seq::<usize>::empty()
    &&& core.commitment is None
    &&& core.awaiting_states@.len() == 0
    &&& port_info_map_contents(core.unclaimed_ports) == port_infos(kinds, types)
    &&& core.rules@.len() == ms.len() == rules.len()
    &&& forall|i: int| 0 <= i < ms.len() ==> rule_is(#[trigger] core.rules@[i], ms[i], c, rules[i].guard)
}

/// The largest of `keys` (zero when there is none).
fn max_key(keys: &Vec<LocId>) -> (c: usize)
    ensures
        forall|j: int| 0 <= j < keys@.len() ==> keys@[j] <= c,
        keys@.len() == 0 ==> c == 0,
        keys@.len() > 0 ==> keys@.contains(c),
{
    let mut c: usize = 0;
    let mut k: usize = 0;
    while k < keys.len()
        invariant
            k <= keys@.len(),
            forall|j: int| 0 <= j < k ==> keys@[j] <= c,
            k == 0 ==> c == 0,
            k > 0 ==> keys@.subrange(0, k as int).contains(c),
        decreases keys@.len() - k,
    {
        if keys[k] > c || k == 0 {
            c = keys[k];
        }
        proof {
            let after = keys@.subrange(0, k + 1);
            if c == keys@[k as int] {
                assert(after[k as int] == c);
            } else {
                let w = choose|w: int| 0 <= w < k && keys@.subrange(0, k as int)[w] == c;
                assert(after[w] == c);
            }
        }
        k += 1;
    }
    proof {
        if keys@.len() > 0 {
            let w = choose|w: int| 0 <= w < keys@.len() && keys@.subrange(0, keys@.len() as int)[w] == c;
            assert(keys@[w] == c);
        }
    }
    c
}

/// Checks that every location (taken in the order of `keys`) has a type, and collects
/// the initialized memory cells, all memory cells, and the ports with their role and type.
fn scan_locations(kinds: &LocKindMap, keys: &Vec<LocId>, types: &Vec<Option<TypeKey>>) -> (r: Result<
    (Vec<LocId>, Vec<LocId>, PortInfoMap),
    ProtoBuildErr,
>)
    requires
        keys@.to_set() == loc_kind_map_contents(*kinds).dom(),
    ensures
        match r {
            Ok((mem_init, mem_any, ports)) => {
                &&& types_cover(loc_kind_map_contents(*kinds), types@)
                &&& mem_init@.to_set() == mem_init_ids(loc_kind_map_contents(*kinds))
                &&& mem_any@.to_set() == mem_ids(loc_kind_map_contents(*kinds))
                &&& port_info_map_contents(ports) == port_infos(
                    loc_kind_map_contents(*kinds),
                    type_map(loc_kind_map_contents(*kinds), types@),
                )
            },
            Err(e) => {
                &&& e matches ProtoBuildErr::UnknownType { loc_id }
                &&& loc_kind_map_contents(*kinds).contains_key(loc_id)
                &&& !types_cover_one(loc_kind_map_contents(*kinds), types@, loc_id)
            },
        },
{
    let ghost kmap = loc_kind_map_contents(*kinds);
    let ghost tmap = type_map(kmap, types@);
    let mut mem_init: Vec<LocId> = Vec::new();
    let mut mem_any: Vec<LocId> = Vec::new();
    let mut ports = PortInfoMap::new();
    let mut k: usize = 0;
    assert(keys@.subrange(0, 0) =~= Seq::<usize>::empty());
    assert(mem_init@.to_set() =~= Set::new(|x: usize| keys@.subrange(0, 0).contains(x) && kmap[x] == LocKind::MemInitialized));
    assert(mem_any@.to_set() =~= Set::new(|x: usize| keys@.subrange(0, 0).contains(x) && kmap[x].spec_is_mem()));
    assert(port_info_map_contents(ports) =~= port_infos(kmap, tmap).restrict(keys@.subrange(0, 0).to_set()));
    while k < keys.len()
        invariant
            kmap == loc_kind_map_contents(*kinds),
            tmap == type_map(kmap, types@),
            keys@.to_set() == kmap.dom(),
            k <= keys@.len(),
            forall|j: int| 0 <= j < k ==> types_cover_one(kmap, types@, #[trigger] keys@[j]),
            mem_init@.to_set() == Set::new(|x: usize| keys@.subrange(0, k as int).contains(x) && kmap[x] == LocKind::MemInitialized),
            mem_any@.to_set() == Set::new(|x: usize| keys@.subrange(0, k as int).contains(x) && kmap[x].spec_is_mem()),
            port_info_map_contents(ports) == port_infos(kmap, tmap).restrict(keys@.subrange(0, k as int).to_set()),
        decreases keys@.len() - k,
    {
        let id = keys[k];
        proof {
            assert(keys@.to_set().contains(id));
        }
        let ghost before = keys@.subrange(0, k as int);
        let ghost after = keys@.subrange(0, k + 1);
        assert(after == before.push(id));
        if id >= types.len() {
            return Err(ProtoBuildErr::UnknownType { loc_id: id });
        }
        let t = match types[id] {
            Some(t) => t,
            None => {
                return Err(ProtoBuildErr::UnknownType { loc_id: id });
            },
        };
        let kind = match kinds.get(id) {
            Some(kind) => kind,
            None => {
                return Err(ProtoBuildErr::UnknownType { loc_id: id });
            },
        };
        let ghost old_init = mem_init@;
        let ghost old_any = mem_any@;
        match kind {
            LocKind::PortPutter => {
                ports.insert(id, PortInfo { role: PortRole::Putter, type_key: t });
            },
            LocKind::PortGetter => {
                ports.insert(id, PortInfo { role: PortRole::Getter, type_key: t });
            },
            LocKind::MemInitialized => {
                mem_init.push(id);
                mem_any.push(id);
            },
            LocKind::MemUninitialized => {
                mem_any.push(id);
            },
        }
        proof {
            assert forall|x: usize| after.contains(x) <==> before.contains(x) || x == id by {
                if after.contains(x) && x != id {
                    let w = choose|w: int| 0 <= w < after.len() && after[w] == x;
                    assert(before[w] == x);
                }
                if before.contains(x) {
                    let w = choose|w: int| 0 <= w < before.len() && before[w] == x;
                    assert(after[w] == x);
                }
                if x == id {
                    assert(after[k as int] == x);
                }
            }
            assert forall|x: usize| mem_init@.to_set().contains(x) <==> old_init.to_set().contains(x) || (x == id && kind == LocKind::MemInitialized) by {
                if mem_init@.to_set().contains(x) && mem_init@ != old_init {
                    let w = choose|w: int| 0 <= w < mem_init@.len() && mem_init@[w] == x;
                    if w < old_init.len() {
                        assert(old_init[w] == x);
                    }
                }
                if old_init.to_set().contains(x) {
                    let w = choose|w: int| 0 <= w < old_init.len() && old_init[w] == x;
                    assert(mem_init@[w] == x);
                }
                if x == id && kind == LocKind::MemInitialized {
                    assert(mem_init@[old_init.len() as int] == x);
                }
            }
            assert forall|x: usize| mem_any@.to_set().contains(x) <==> old_any.to_set().contains(x) || (x == id && kind.spec_is_mem()) by {
                if mem_any@.to_set().contains(x) && mem_any@ != old_any {
                    let w = choose|w: int| 0 <= w < mem_any@.len() && mem_any@[w] == x;
                    if w < old_any.len() {
                        assert(old_any[w] == x);
                    }
                }
                if old_any.to_set().contains(x) {
                    let w = choose|w: int| 0 <= w < old_any.len() && old_any[w] == x;
                    assert(mem_any@[w] == x);
                }
                if x == id && kind.spec_is_mem() {
                    assert(mem_any@[old_any.len() as int] == x);
                }
            }
            assert(kind == kmap[id]);
            let s_init = Set::new(|x: usize| before.contains(x) && kmap[x] == LocKind::MemInitialized);
            let s_any = Set::new(|x: usize| before.contains(x) && kmap[x].spec_is_mem());
            assert forall|x: usize| mem_init@.to_set().contains(x) == (after.contains(x) && kmap[x] == LocKind::MemInitialized) by {
                assert(old_init.to_set().contains(x) == s_init.contains(x));
            }
            assert forall|x: usize| mem_any@.to_set().contains(x) == (after.contains(x) && kmap[x].spec_is_mem()) by {
                assert(old_any.to_set().contains(x) == s_any.contains(x));
            }
            assert(mem_init@.to_set() =~= Set::new(|x: usize| after.contains(x) && kmap[x] == LocKind::MemInitialized));
            assert(mem_any@.to_set() =~= Set::new(|x: usize| after.contains(x) && kmap[x].spec_is_mem()));
            assert(port_info_map_contents(ports) =~= port_infos(kmap, tmap).restrict(after.to_set()));
        }
        k += 1;
    }
    assert(keys@.subrange(0, keys@.len() as int) == keys@);
    proof {
        assert forall|x: usize| #[trigger] kmap.contains_key(x) implies x < types@.len() && types@[x as int] is Some by {
            assert(keys@.to_set().contains(x));
            let j = choose|j: int| 0 <= j < keys@.len() && keys@[j] == x;
            assert(types_cover_one(kmap, types@, keys@[j]));
        }
        assert(mem_init@.to_set() =~= mem_init_ids(kmap));
        assert(mem_any@.to_set() =~= mem_ids(kmap));
        assert(port_info_map_contents(ports) =~= port_infos(kmap, tmap));
    }
    Ok((mem_init, mem_any, ports))
}

/// What occupies each location id from `0` to `c`; an initialized memory cell without
/// an initial value is reported (the first, in id order).
fn build_spaces(kinds: &LocKindMap, c: usize, filled: &Vec<bool>) -> (r: Result<Vec<SpaceKind>, ProtoBuildErr>)
    requires
        keys_at_most(loc_kind_map_contents(*kinds), c),
    ensures
        match r {
            Ok(spaces) => {
                &&& spaces@.len() == c + 1
                &&& forall|i: int| 0 <= i <= c ==> #[trigger] spaces@[i] == space_of(loc_kind_map_contents(*kinds), i as usize)
                &&& forall|j: usize| #[trigger] fill_ok(loc_kind_map_contents(*kinds), filled@, j)
            },
            Err(e) => {
                &&& e matches ProtoBuildErr::MemoryFillPromiseBroken { loc_id }
                &&& !fill_ok(loc_kind_map_contents(*kinds), filled@, loc_id)
                &&& forall|j: usize| j < loc_id ==> #[trigger] fill_ok(loc_kind_map_contents(*kinds), filled@, j)
            },
        },
{
    let ghost kmap = loc_kind_map_contents(*kinds);
    let mut spaces: Vec<SpaceKind> = Vec::new();
    let mut id: usize = 0;
    loop
        invariant_except_break
            id <= c,
            spaces@.len() == id,
        invariant
            kmap == loc_kind_map_contents(*kinds),
            keys_at_most(kmap, c),
            forall|i: int| 0 <= i < spaces@.len() ==> #[trigger] spaces@[i] == space_of(kmap, i as usize),
            forall|j: usize| j < spaces@.len() ==> #[trigger] fill_ok(kmap, filled@, j),
        ensures
            spaces@.len() == c + 1,
        decreases c - id,
    {
        let space = match kinds.get(id) {
            Some(LocKind::PortPutter) => SpaceKind::PoPu,
            Some(LocKind::PortGetter) => SpaceKind::PoGe,
            Some(LocKind::MemInitialized) => {
                if id < filled.len() && filled[id] {
                    SpaceKind::Memo
                } else {
                    return Err(ProtoBuildErr::MemoryFillPromiseBroken { loc_id: id });
                }
            },
            Some(LocKind::MemUninitialized) => SpaceKind::Memo,
            None => SpaceKind::Unused,
        };
        spaces.push(space);
        if id == c {
            break ;
        }
        id += 1;
    }
    proof {
        assert forall|j: usize| #[trigger] fill_ok(kmap, filled@, j) by {
            if j > c {
                assert(!kmap.contains_key(j));
            }
        }
    }
    Ok(spaces)
}

/// Compiles the rules in order, stopping at the first that does not compile.
fn build_rules(kinds: &LocKindMap, types: &Vec<Option<TypeKey>>, c: usize, rule_defs: Vec<RuleDef>) -> (r: Result<Vec<RunRule>, ProtoBuildErr>)
    requires
        types_cover(loc_kind_map_contents(*kinds), types@),
        keys_at_most(loc_kind_map_contents(*kinds), c),
    ensures
        match rules_fold(loc_kind_map_contents(*kinds), type_map(loc_kind_map_contents(*kinds), types@), rule_defs@) {
            Ok(ms) => r matches Ok(rules) && rules@.len() == ms.len() == rule_defs@.len() && forall|i: int|
                0 <= i < ms.len() ==> rule_is(#[trigger] rules@[i], ms[i], c, rule_defs@[i].guard),
            Err(e) => r == Err::<Vec<RunRule>, ProtoBuildErr>(e),
        },
{
    let ghost kmap = loc_kind_map_contents(*kinds);
    let ghost tmap = type_map(kmap, types@);
    let ghost all_rules = rule_defs@;
    let mut rules: Vec<RunRule> = Vec::new();
    let mut remaining = rule_defs;
    let n_rules = remaining.len();
    let mut rule_id: usize = 0;
    let ghost mut ms: Seq<RuleModel> = Seq::empty();
    assert(all_rules.subrange(0, 0) =~= Seq::<RuleDef>::empty());
    assert(remaining@ == all_rules.subrange(0, all_rules.len() as int));
    while rule_id < n_rules
        invariant
            kmap == loc_kind_map_contents(*kinds),
            tmap == type_map(kmap, types@),
            types_cover(kmap, types@),
            keys_at_most(kmap, c),
            n_rules == all_rules.len(),
            rule_id <= all_rules.len(),
            remaining@ == all_rules.subrange(rule_id as int, all_rules.len() as int),
            all_rules == rule_defs@,
            rules_fold(kmap, tmap, all_rules.subrange(0, rule_id as int)) == Ok::<Seq<RuleModel>, ProtoBuildErr>(ms),
            rules@.len() == rule_id,
            ms.len() == rule_id,
            forall|i: int| 0 <= i < rule_id ==> rule_is(#[trigger] rules@[i], ms[i], c, all_rules[i].guard),
        decreases all_rules.len() - rule_id,
    {
        let ghost prefix = all_rules.subrange(0, rule_id as int);
        let ghost next = all_rules.subrange(0, rule_id + 1);
        assert(next.drop_last() == prefix);
        let rule_def = remaining.remove(0);
        assert(rule_def == all_rules[rule_id as int]);
        assert(next.last() == rule_def);
        assert(remaining@ =~= all_rules.subrange(rule_id + 1, all_rules.len() as int));
        let rr = build_rule(kinds, types, c, rule_id, rule_def);
        match rr {
            Ok(rr) => {
                rules.push(rr);
                proof {
                    let m = actions_fold(kmap, tmap, rule_id, all_rules[rule_id as int].actions@)->Ok_0;
                    ms = ms.push(m);
                }
            },
            Err(e) => {
                proof {
                    lemma_rules_prop(kmap, tmap, all_rules, rule_id + 1);
                }
                return Err(e);
            },
        }
        rule_id += 1;
    }
    assert(all_rules.subrange(0, all_rules.len() as int) == all_rules);
    Ok(rules)
}

/// Builds the coordinator of the protocol `def`, where `types[id]` is the data type of
/// location `id` (if known) and `filled[id]` says whether memory cell `id` was given
/// an initial value. The first problem found is reported: a location without a type
/// (among the locations, in the map's own order), then an initialized memory cell without
/// a value (in id order), then the first rule that does not compile.
pub fn build_core(def: TypelessProtoDef, types: &Vec<Option<TypeKey>>, filled: &Vec<bool>) -> (r: Result<
    ProtoCore,
    ProtoBuildErr,
>)
    ensures
        !types_cover(loc_kind_map_contents(def.loc_kinds), types@) ==> (r matches Err(
            ProtoBuildErr::UnknownType { loc_id },
        ) && loc_kind_map_contents(def.loc_kinds).contains_key(loc_id) && !(loc_id < types@.len()
            && types@[loc_id as int] is Some)),
        types_cover(loc_kind_map_contents(def.loc_kinds), types@) && (exists|id: usize|
            !#[trigger] fill_ok(loc_kind_map_contents(def.loc_kinds), filled@, id)) ==> (r matches Err(
            ProtoBuildErr::MemoryFillPromiseBroken { loc_id },
        ) && !fill_ok(loc_kind_map_contents(def.loc_kinds), filled@, loc_id) && forall|j: usize|
            j < loc_id ==> #[trigger] fill_ok(loc_kind_map_contents(def.loc_kinds), filled@, j)),
        types_cover(loc_kind_map_contents(def.loc_kinds), types@) && (forall|id: usize|
            #[trigger] fill_ok(loc_kind_map_contents(def.loc_kinds), filled@, id)) ==> match rules_fold(
            loc_kind_map_contents(def.loc_kinds),
            type_map(loc_kind_map_contents(def.loc_kinds), types@),
            def.behaviour.rules@,
        ) {
            Ok(ms) => r matches Ok(core) && exists|c: usize|
                core_built(
                    core,
                    loc_kind_map_contents(def.loc_kinds),
                    type_map(loc_kind_map_contents(def.loc_kinds), types@),
                    c,
                    def.behaviour.rules@,
                    ms,
                ),
            Err(e) => r == Err::<ProtoCore, ProtoBuildErr>(e),
        },
{
    let ghost kmap = loc_kind_map_contents(def.loc_kinds);
    let ghost tmap = type_map(kmap, types@);
    let ghost all_rules = def.behaviour.rules@;
    let keys = def.loc_kinds.keys();
    let c = max_key(&keys);
    proof {
        assert forall|x: usize| #[trigger] kmap.contains_key(x) implies x <= c by {
            assert(keys@.to_set().contains(x));
        }
        if !kmap.dom().is_empty() {
            let x = kmap.dom().choose();
            assert(keys@.to_set().contains(x));
            assert(keys@.contains(c));
            assert(keys@.to_set().contains(c));
        } else {
            if keys@.len() > 0 {
                assert(keys@.to_set().contains(keys@[0]));
            }
        }
        assert(is_max_key(kmap, c));
    }
    let (mem_init, mem_any, unclaimed_ports) = match scan_locations(&def.loc_kinds, &keys, types) {
        Ok(x) => x,
        Err(e) => {
            return Err(e);
        },
    };
    let mut memory_bits = BitSet::from_set_iter(mem_init);
    proof {
        lemma_track_pad(memory_bits@, mem_init_ids(kmap), mem_init_ids(kmap), c, kmap);
    }
    memory_bits.pad_trailing_zeroes_to_capacity(c);
    let ready = BitSet::from_set_iter(mem_any);
    let spaces = match build_spaces(&def.loc_kinds, c, filled) {
        Ok(s) => s,
        Err(e) => {
            return Err(e);
        },
    };
    let TypelessProtoDef { behaviour, loc_kinds } = def;
    let rules = match build_rules(&loc_kinds, types, c, behaviour.rules) {
        Ok(rules) => rules,
        Err(e) => {
            return Err(e);
        },
    };
    let core = ProtoCore {
        rules,
        spaces,
        memory_bits,
        ready,
        commitment: None,
        ready_tentative: BitSet::default(),
        awaiting_states: Vec::new(),
        unclaimed_ports,
    };
    assert(core_built(core, kmap, tmap, c, all_rules, rules_fold(kmap, tmap, all_rules)->Ok_0));
    Ok(core)
}

pub open spec fn types_cover_one(kinds: Map<usize, LocKind>, types: Seq<Option<TypeKey>>, k: usize) -> bool {
    k < types.len() && types[k as int] is Some
}

proof fn lemma_rules_prop(kinds: Map<usize, LocKind>, types: Map<usize, TypeKey>, rules: Seq<RuleDef>, k: int)
    requires
        0 <= k <= rules.len(),
        rules_fold(kinds, types, rules.subrange(0, k)) is Err,
    ensures
        rules_fold(kinds, types, rules) == rules_fold(kinds, types, rules.subrange(0, k)),
    decreases rules.len() - k,
{
    if k == rules.len() {
        assert(rules.subrange(0, k) == rules);
    } else {
        assert(rules.subrange(0, k + 1).drop_last() == rules.subrange(0, k));
        lemma_rules_prop(kinds, types, rules, k + 1);
    }
}

} // verus!
