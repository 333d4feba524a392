//! Rule-based port automata whose state is a partial map from memory cells to booleans:
//! rules guard on some cells, assign some cells, and may move through one port.
use crate::proto::collections::{unique_ids, unique_seq};
use crate::proto::nu_def::ActionDef;
use crate::{LocId, RuleId};
use vstd::prelude::*;

verus! {

/// A partial assignment of booleans to memory cells (a `hashbrown::HashMap<LocId, bool>`).
#[verifier::external_body]
pub struct StatePred {
    inner: hashbrown::HashMap<LocId, bool>,
}

/// What a [`StatePred`] holds.
pub uninterp spec fn pred_contents(p: StatePred) -> Map<usize, bool>;

impl StatePred {
    /// `hashbrown::HashMap::new`: the map starts empty.
    #[verifier::external_body]
    pub fn new() -> (r: StatePred)
        ensures
            pred_contents(r) =~= Map::empty(),
    {
        StatePred { inner: hashbrown::HashMap::new() }
    }

    /// `hashbrown::HashMap::get`: the value of cell `k`, if any.
    #[verifier::external_body]
    pub fn get(&self, k: LocId) -> (r: Option<bool>)
        ensures
            r == (if pred_contents(*self).contains_key(k) {
                Some(pred_contents(*self)[k])
            } else {
                None
            }),
    {
        self.inner.get(&k).copied()
    }

    /// `hashbrown::HashMap::insert`: sets cell `k` to `v`.
    #[verifier::external_body]
    pub fn insert(&mut self, k: LocId, v: bool)
        ensures
            pred_contents(*final(self)) == pred_contents(*old(self)).insert(k, v),
    {
        self.inner.insert(k, v);
    }

    /// `hashbrown::HashMap::remove`: forgets cell `k`.
    #[verifier::external_body]
    pub fn remove(&mut self, k: LocId)
        ensures
            pred_contents(*final(self)) == pred_contents(*old(self)).remove(k),
    {
        self.inner.remove(&k);
    }

    /// `hashbrown::HashMap::keys`: every cell once, in the map's own order (which this
    /// contract leaves open).
    #[verifier::external_body]
    pub fn keys(&self) -> (r: Vec<LocId>)
        ensures
            r@.to_set() == pred_contents(*self).dom(),
            r@.no_duplicates(),
    {
        self.inner.keys().copied().collect()
    }

    /// `hashbrown::HashMap::is_empty`.
    #[verifier::external_body]
    pub fn is_empty(&self) -> (r: bool)
        ensures
            r == (pred_contents(*self).dom() =~= Set::empty()),
    {
        self.inner.is_empty()
    }

    /// `PartialEq::eq` of the maps: whether they hold the same cells with the same values.
    #[verifier::external_body]
    pub fn equals(&self, other: &StatePred) -> (r: bool)
        ensures
            r == (pred_contents(*self) == pred_contents(*other)),
    {
        self.inner == other.inner
    }

    /// `Clone::clone` of the map: the same cells and values.
    #[verifier::external_body]
    pub fn duplicate(&self) -> (r: StatePred)
        ensures
            pred_contents(r) == pred_contents(*self),
    {
        StatePred { inner: self.inner.clone() }
    }
}

/// The value a predicate gives cell `k`, if any.
pub open spec fn pred_get(m: Map<usize, bool>, k: usize) -> Option<bool> {
    if m.contains_key(k) {
        Some(m[k])
    } else {
        None
    }
}

/// A rule: when the memory agrees with `guard`, it may move (through `port`, or
/// silently) and set the cells of `assign`.
pub struct RbpaRule {
    pub port: Option<LocId>,
    pub guard: StatePred,
    pub assign: StatePred,
}

/// `assign` without the cells to which `guard` already gives the same value.
pub open spec fn normalized_assign(guard: Map<usize, bool>, assign: Map<usize, bool>) -> Map<usize, bool> {
    assign.restrict(assign.dom().filter(|k: usize| pred_get(guard, k) != Some(assign[k])))
}

/// How the guards of two rules relate.
#[derive(Debug, Copy, Clone, PartialEq, Eq, Structural)]
pub enum FuseCase {
    LeftSubsumes,
    RightSubsumes,
    PartitionAt(LocId),
    Identical,
}

/// Whether some cell of `s` is guarded by `a` but not by `b`.
pub open spec fn only_in(a: Map<usize, bool>, b: Map<usize, bool>, s: Set<usize>) -> bool {
    exists|k: usize| s.contains(k) && a.contains_key(k) && !b.contains_key(k)
}

/// Whether `a` and `b` guard cell `k` with different values.
pub open spec fn clash_at(a: Map<usize, bool>, b: Map<usize, bool>, k: usize) -> bool {
    a.contains_key(k) && b.contains_key(k) && a[k] != b[k]
}

/// How the guards `a` and `b` relate over the cells `s`, or `None` when they relate in
/// no way that lets the rules fuse.
pub open spec fn fuse_case(a: Map<usize, bool>, b: Map<usize, bool>, s: Set<usize>) -> Option<FuseCase> {
    let left = only_in(a, b, s);
    let right = only_in(b, a, s);
    let clashes = exists|k: usize| s.contains(k) && clash_at(a, b, k);
    let two = exists|k: usize, j: usize| s.contains(k) && s.contains(j) && k != j && clash_at(a, b, k) && clash_at(a, b, j);
    if (left && right) || (clashes && (left || right)) || two {
        None
    } else if left {
        Some(FuseCase::RightSubsumes)
    } else if right {
        Some(FuseCase::LeftSubsumes)
    } else if clashes {
        Some(FuseCase::PartitionAt(choose|k: usize| s.contains(k) && clash_at(a, b, k)))
    } else {
        Some(FuseCase::Identical)
    }
}

/// The value a rule leaves in cell `k`: what it assigns, else what it guards.
pub open spec fn effective(g: Map<usize, bool>, a: Map<usize, bool>, k: usize) -> Option<bool> {
    if a.contains_key(k) {
        Some(a[k])
    } else {
        pred_get(g, k)
    }
}

proof fn lemma_unique_seq_contains(s: Seq<usize>)
    ensures
        forall|x: usize| #[trigger] unique_seq(s).contains(x) <==> s.contains(x),
    decreases s.len(),
{
    if s.len() > 0 {
        lemma_unique_seq_contains(s.drop_last());
        let prev = unique_seq(s.drop_last());
        assert forall|x: usize| #[trigger] unique_seq(s).contains(x) <==> s.contains(x) by {
            if s.drop_last().contains(s.last()) {
            } else {
                assert(prev.push(s.last()).contains(x) <==> (prev.contains(x) || x == s.last())) by {
                    if prev.push(s.last()).contains(x) {
                        let w = choose|w: int| 0 <= w < prev.len() + 1 && prev.push(s.last())[w] == x;
                        if w < prev.len() {
                            assert(prev[w] == x);
                        }
                    }
                    if prev.contains(x) {
                        let w = choose|w: int| 0 <= w < prev.len() && prev[w] == x;
                        assert(prev.push(s.last())[w] == x);
                    }
                    if x == s.last() {
                        assert(prev.push(s.last())[prev.len() as int] == x);
                    }
                }
            }
            assert(s =~= s.drop_last().push(s.last()));
            if s.contains(x) {
                let w = choose|w: int| 0 <= w < s.len() && s[w] == x;
                if w < s.len() - 1 {
                    assert(s.drop_last()[w] == x);
                }
            }
            if s.drop_last().contains(x) {
                let w = choose|w: int| 0 <= w < s.drop_last().len() && s.drop_last()[w] == x;
                assert(s[w] == x);
            }
        }
    }
}

proof fn lemma_unique_seq_no_dups(s: Seq<usize>)
    ensures
        unique_seq(s).no_duplicates(),
    decreases s.len(),
{
    if s.len() > 0 {
        lemma_unique_seq_no_dups(s.drop_last());
        lemma_unique_seq_contains(s.drop_last());
        let prev = unique_seq(s.drop_last());
        if !s.drop_last().contains(s.last()) {
            assert(!prev.contains(s.last()));
            let q = prev.push(s.last());
            assert forall|i: int, j: int| 0 <= i < q.len() && 0 <= j < q.len() && i != j implies q[i] != q[j] by {
                if i == prev.len() {
                    assert(prev[j] == q[j]);
                } else if j == prev.len() {
                    assert(prev[i] == q[i]);
                }
            }
        }
    }
}

/// The cells guarded by either predicate, each once.
fn guard_union(a: &StatePred, b: &StatePred) -> (r: Vec<LocId>)
    ensures
        r@.no_duplicates(),
        forall|x: usize| #[trigger] r@.contains(x) <==> (pred_contents(*a).contains_key(x) || pred_contents(*b).contains_key(x)),
{
    let mut all = a.keys();
    let kb = b.keys();
    let ghost ka = all@;
    let mut i: usize = 0;
    while i < kb.len()
        invariant
            i <= kb@.len(),
            all@ == ka + kb@.take(i as int),
        decreases kb@.len() - i,
    {
        all.push(kb[i]);
        i += 1;
        assert(all@ =~= ka + kb@.take(i as int));
    }
    assert(kb@.take(kb@.len() as int) =~= kb@);
    let r = unique_ids(&all);
    proof {
        lemma_unique_seq_contains(all@);
        lemma_unique_seq_no_dups(all@);
        assert forall|x: usize| #[trigger] all@.contains(x) <==> (pred_contents(*a).contains_key(x) || pred_contents(
            *b,
        ).contains_key(x)) by {
            assert(ka.to_set().contains(x) <==> ka.contains(x));
            assert(kb@.to_set().contains(x) <==> kb@.contains(x));
            if all@.contains(x) {
                let w = choose|w: int| 0 <= w < all@.len() && all@[w] == x;
                if w < ka.len() {
                    assert(ka[w] == x);
                } else {
                    assert(kb@[w - ka.len()] == x);
                }
            }
            if ka.contains(x) {
                let w = choose|w: int| 0 <= w < ka.len() && ka[w] == x;
                assert(all@[w] == x);
            }
            if kb@.contains(x) {
                let w = choose|w: int| 0 <= w < kb@.len() && kb@[w] == x;
                assert(all@[ka.len() + w] == x);
            }
        }
    }
    r
}

proof fn lemma_take_step(s: Seq<usize>, i: int)
    requires
        0 <= i < s.len(),
    ensures
        forall|x: usize| #[trigger] s.take(i + 1).contains(x) <==> (s.take(i).contains(x) || x == s[i]),
{
    assert forall|x: usize| #[trigger] s.take(i + 1).contains(x) <==> (s.take(i).contains(x) || x == s[i]) by {
        if s.take(i + 1).contains(x) {
            let w = choose|w: int| 0 <= w < i + 1 && #[trigger] s.take(i + 1)[w] == x;
            if w < i {
                assert(s.take(i)[w] == x);
            }
        }
        if s.take(i).contains(x) {
            let w = choose|w: int| 0 <= w < i && #[trigger] s.take(i)[w] == x;
            assert(s.take(i + 1)[w] == x);
        }
        if x == s[i] {
            assert(s.take(i + 1)[i] == x);
        }
    }
}

/// The cells of `s` taken as a set.
pub open spec fn cells(s: Seq<usize>) -> Set<usize> {
    Set::new(|k: usize| s.contains(k))
}

proof fn lemma_fuse_case_grows(a: Map<usize, bool>, b: Map<usize, bool>, s: Set<usize>, t: Set<usize>)
    requires
        s.subset_of(t),
        fuse_case(a, b, s) is None,
    ensures
        fuse_case(a, b, t) is None,
{
    if only_in(a, b, s) {
        let k = choose|k: usize| s.contains(k) && a.contains_key(k) && !b.contains_key(k);
        assert(t.contains(k));
    }
    if only_in(b, a, s) {
        let k = choose|k: usize| s.contains(k) && b.contains_key(k) && !a.contains_key(k);
        assert(t.contains(k));
    }
    if exists|k: usize| s.contains(k) && clash_at(a, b, k) {
        let k = choose|k: usize| s.contains(k) && clash_at(a, b, k);
        assert(t.contains(k));
    }
    if exists|k: usize, j: usize| s.contains(k) && s.contains(j) && k != j && clash_at(a, b, k) && clash_at(a, b, j) {
        let (k, j) = choose|k: usize, j: usize|
            s.contains(k) && s.contains(j) && k != j && clash_at(a, b, k) && clash_at(a, b, j);
        assert(t.contains(k) && t.contains(j));
    }
}

/// The guard of two fused rules.
pub open spec fn fused_guard(g1: Map<usize, bool>, g2: Map<usize, bool>, c: FuseCase) -> Map<usize, bool> {
    match c {
        FuseCase::Identical | FuseCase::LeftSubsumes => g1,
        FuseCase::RightSubsumes => g2,
        FuseCase::PartitionAt(id) => g1.remove(id),
    }
}

/// How the relation of two guards changes when one more cell is taken into account.
proof fn lemma_fuse_case_step(a: Map<usize, bool>, b: Map<usize, bool>, s: Set<usize>, id: usize, c: FuseCase)
    requires
        !s.contains(id),
        fuse_case(a, b, s) == Some(c),
    ensures
        a.contains_key(id) && !b.contains_key(id) ==> fuse_case(a, b, s.insert(id)) == (if c == FuseCase::RightSubsumes
            || c == FuseCase::Identical {
            Some(FuseCase::RightSubsumes)
        } else {
            None
        }),
        !a.contains_key(id) && b.contains_key(id) ==> fuse_case(a, b, s.insert(id)) == (if c == FuseCase::LeftSubsumes
            || c == FuseCase::Identical {
            Some(FuseCase::LeftSubsumes)
        } else {
            None
        }),
        clash_at(a, b, id) ==> fuse_case(a, b, s.insert(id)) == (if c == FuseCase::Identical {
            Some(FuseCase::PartitionAt(id))
        } else {
            None
        }),
        (a.contains_key(id) == b.contains_key(id)) && !clash_at(a, b, id) ==> fuse_case(a, b, s.insert(id)) == Some(c),
{
    let t = s.insert(id);
    let left = only_in(a, b, s);
    let right = only_in(b, a, s);
    let clashes = exists|k: usize| s.contains(k) && clash_at(a, b, k);
    if a.contains_key(id) && !b.contains_key(id) {
        assert(t.contains(id) && a.contains_key(id) && !b.contains_key(id));
        assert(only_in(a, b, t));
        if right {
            let k = choose|k: usize| s.contains(k) && b.contains_key(k) && !a.contains_key(k);
            assert(t.contains(k));
        }
        if clashes {
            let k = choose|k: usize| s.contains(k) && clash_at(a, b, k);
            assert(t.contains(k));
        }
        if !right && !clashes {
            assert(!only_in(b, a, t)) by {
                if only_in(b, a, t) {
                    let k = choose|k: usize| t.contains(k) && b.contains_key(k) && !a.contains_key(k);
                    assert(s.contains(k));
                }
            }
            assert(!(exists|k: usize| t.contains(k) && clash_at(a, b, k))) by {
                if exists|k: usize| t.contains(k) && clash_at(a, b, k) {
                    let k = choose|k: usize| t.contains(k) && clash_at(a, b, k);
                    assert(s.contains(k));
                }
            }
        }
    } else if !a.contains_key(id) && b.contains_key(id) {
        assert(t.contains(id) && b.contains_key(id) && !a.contains_key(id));
        assert(only_in(b, a, t));
        if left {
            let k = choose|k: usize| s.contains(k) && a.contains_key(k) && !b.contains_key(k);
            assert(t.contains(k));
        }
        if clashes {
            let k = choose|k: usize| s.contains(k) && clash_at(a, b, k);
            assert(t.contains(k));
        }
        if !left && !clashes {
            assert(!only_in(a, b, t)) by {
                if only_in(a, b, t) {
                    let k = choose|k: usize| t.contains(k) && a.contains_key(k) && !b.contains_key(k);
                    assert(s.contains(k));
                }
            }
            assert(!(exists|k: usize| t.contains(k) && clash_at(a, b, k))) by {
                if exists|k: usize| t.contains(k) && clash_at(a, b, k) {
                    let k = choose|k: usize| t.contains(k) && clash_at(a, b, k);
                    assert(s.contains(k));
                }
            }
        }
    } else if clash_at(a, b, id) {
        assert(t.contains(id) && clash_at(a, b, id));
        if left {
            let k = choose|k: usize| s.contains(k) && a.contains_key(k) && !b.contains_key(k);
            assert(t.contains(k));
        }
        if right {
            let k = choose|k: usize| s.contains(k) && b.contains_key(k) && !a.contains_key(k);
            assert(t.contains(k));
        }
        if clashes {
            let k = choose|k: usize| s.contains(k) && clash_at(a, b, k);
            assert(t.contains(k) && k != id);
        }
        if !left && !right && !clashes {
            assert(!only_in(a, b, t)) by {
                if only_in(a, b, t) {
                    let k = choose|k: usize| t.contains(k) && a.contains_key(k) && !b.contains_key(k);
                    assert(s.contains(k));
                }
            }
            assert(!only_in(b, a, t)) by {
                if only_in(b, a, t) {
                    let k = choose|k: usize| t.contains(k) && b.contains_key(k) && !a.contains_key(k);
                    assert(s.contains(k));
                }
            }
            assert forall|k: usize| t.contains(k) && clash_at(a, b, k) implies k == id by {
                if k != id {
                    assert(s.contains(k));
                }
            }
            let w = choose|k: usize| t.contains(k) && clash_at(a, b, k);
            assert(w == id);
        }
    } else {
        assert(only_in(a, b, t) == left) by {
            if only_in(a, b, t) {
                let k = choose|k: usize| t.contains(k) && a.contains_key(k) && !b.contains_key(k);
                assert(s.contains(k));
            }
            if left {
                let k = choose|k: usize| s.contains(k) && a.contains_key(k) && !b.contains_key(k);
                assert(t.contains(k));
            }
        }
        assert(only_in(b, a, t) == right) by {
            if only_in(b, a, t) {
                let k = choose|k: usize| t.contains(k) && b.contains_key(k) && !a.contains_key(k);
                assert(s.contains(k));
            }
            if right {
                let k = choose|k: usize| s.contains(k) && b.contains_key(k) && !a.contains_key(k);
                assert(t.contains(k));
            }
        }
        assert forall|k: usize| t.contains(k) && clash_at(a, b, k) implies s.contains(k) by {}
        assert((exists|k: usize| t.contains(k) && clash_at(a, b, k)) == clashes) by {
            if clashes {
                let k = choose|k: usize| s.contains(k) && clash_at(a, b, k);
                assert(t.contains(k));
            }
        }
        assert((exists|k: usize, j: usize|
            t.contains(k) && t.contains(j) && k != j && clash_at(a, b, k) && clash_at(a, b, j)) == (exists|k: usize, j: usize|
            s.contains(k) && s.contains(j) && k != j && clash_at(a, b, k) && clash_at(a, b, j))) by {
            if exists|k: usize, j: usize|
                s.contains(k) && s.contains(j) && k != j && clash_at(a, b, k) && clash_at(a, b, j) {
                let (k, j) = choose|k: usize, j: usize|
                    s.contains(k) && s.contains(j) && k != j && clash_at(a, b, k) && clash_at(a, b, j);
                assert(t.contains(k) && t.contains(j));
            }
        }
        assert((|k: usize| t.contains(k) && clash_at(a, b, k)) =~= (|k: usize| s.contains(k) && clash_at(a, b, k)));
    }
}

/// The guard of `a` followed by `b`: `a`'s guard, plus `b`'s tests of cells that `a`
/// neither tests nor sets.
pub open spec fn composed_guard(g1: Map<usize, bool>, a1: Map<usize, bool>, g2: Map<usize, bool>) -> Map<usize, bool> {
    g2.restrict(g2.dom().filter(|k: usize| effective(g1, a1, k) is None)).union_prefer_right(g1)
}

/// The assignment of `a` followed by `b`: `b`'s, plus `a`'s settings of cells that `b`
/// neither tests nor sets.
pub open spec fn composed_assign(a1: Map<usize, bool>, g2: Map<usize, bool>, a2: Map<usize, bool>) -> Map<usize, bool> {
    a1.restrict(a1.dom().filter(|k: usize| !g2.contains_key(k) && !a2.contains_key(k))).union_prefer_right(a2)
}

/// Whether what `a` leaves agrees with every test of `b`.
pub open spec fn can_follow(g1: Map<usize, bool>, a1: Map<usize, bool>, g2: Map<usize, bool>) -> bool {
    forall|k: usize| #[trigger] g2.contains_key(k) ==> (effective(g1, a1, k) is None || effective(g1, a1, k) == Some(g2[k]))
}

/// What a rule is: its port, its guard and its assignment.
pub type RuleView = (Option<usize>, Map<usize, bool>, Map<usize, bool>);

pub open spec fn rule_view(r: RbpaRule) -> RuleView {
    (r.port, pred_contents(r.guard), pred_contents(r.assign))
}

pub open spec fn views(rules: Seq<RbpaRule>) -> Seq<RuleView> {
    rules.map_values(|r: RbpaRule| rule_view(r))
}

/// The fusion of two rules, if they fuse.
pub open spec fn fuse_view(a: RuleView, b: RuleView) -> Option<RuleView> {
    let u = a.1.dom() + b.1.dom();
    if a.0 == b.0 && fuse_case(a.1, b.1, u) is Some && forall|k: usize|
        #[trigger] u.contains(k) ==> effective(a.1, a.2, k) == effective(b.1, b.2, k) {
        let g = fused_guard(a.1, b.1, fuse_case(a.1, b.1, u).unwrap());
        Some((a.0, g, normalized_assign(g, a.2)))
    } else {
        None
    }
}

/// The composition of the silent `a` followed by `b`, if `b` can follow `a`.
pub open spec fn compose_view(a: RuleView, b: RuleView) -> Option<RuleView> {
    if can_follow(a.1, a.2, b.1) {
        let g = composed_guard(a.1, a.2, b.1);
        Some((b.0, g, normalized_assign(g, composed_assign(a.2, b.1, b.2))))
    } else {
        None
    }
}

/// A rule with guard `g` and assignment `a` takes the memory `s` (cell to fullness) to
/// `t`: `s` agrees with every test of the guard, and `t` is `s` with the assignment made.
pub open spec fn takes(g: Map<usize, bool>, a: Map<usize, bool>, s: Map<usize, bool>, t: Map<usize, bool>) -> bool {
    &&& forall|k: usize| #[trigger] g.contains_key(k) ==> s.contains_key(k) && s[k] == g[k]
    &&& t == s.union_prefer_right(a)
}

/// What the composition of `a` followed by `b` assigns: every cell `b` sets gets `b`'s
/// value, and every cell `a` sets that `b` neither tests nor sets gets `a`'s value, except
/// where the composed guard already fixes that value; no other cell is assigned. Its
/// guard keeps every test of `a`, and every test of `b` on a cell `a` neither tests nor sets.
pub proof fn law_compose_assigns(a: RuleView, b: RuleView)
    ensures
        compose_view(a, b) matches Some(c) ==> {
            &&& c.0 == b.0
            &&& forall|k: usize|
                #[trigger] b.2.contains_key(k) && pred_get(c.1, k) != Some(b.2[k]) ==> c.2.contains_key(k)
                    && c.2[k] == b.2[k]
            &&& forall|k: usize|
                #[trigger] a.2.contains_key(k) && !b.1.contains_key(k) && !b.2.contains_key(k) && pred_get(c.1, k)
                    != Some(a.2[k]) ==> c.2.contains_key(k) && c.2[k] == a.2[k]
            &&& forall|k: usize| #[trigger] c.2.contains_key(k) ==> a.2.contains_key(k) || b.2.contains_key(k)
            &&& forall|k: usize| #[trigger] a.1.contains_key(k) ==> c.1.contains_key(k) && c.1[k] == a.1[k]
            &&& forall|k: usize|
                #[trigger] b.1.contains_key(k) && !a.1.contains_key(k) && !a.2.contains_key(k) ==> c.1.contains_key(k)
                    && c.1[k] == b.1[k]
        },
{
}

/// Composition is sequencing: when `a` takes `s` to `t` and `b` takes `t` to `u`, their
/// composition exists and takes `s` straight to `u`, with `b`'s port. This holds where
/// no cell that `a` sets is tested by `b` without `b` setting it again (the composition
/// drops `a`'s setting of such a cell).
pub proof fn law_compose_is_sequencing(
    a: RuleView,
    b: RuleView,
    s: Map<usize, bool>,
    t: Map<usize, bool>,
    u: Map<usize, bool>,
)
    requires
        takes(a.1, a.2, s, t),
        takes(b.1, b.2, t, u),
        forall|k: usize| a.2.contains_key(k) && b.1.contains_key(k) ==> b.2.contains_key(k),
    ensures
        compose_view(a, b) matches Some(c) && c.0 == b.0 && takes(c.1, c.2, s, u),
{
    assert(can_follow(a.1, a.2, b.1));
    let g = composed_guard(a.1, a.2, b.1);
    let ca = normalized_assign(g, composed_assign(a.2, b.1, b.2));
    assert forall|k: usize| #[trigger] g.contains_key(k) implies s.contains_key(k) && s[k] == g[k] by {
        if !a.1.contains_key(k) {
            assert(b.1.contains_key(k) && effective(a.1, a.2, k) is None);
            assert(t[k] == s[k]);
        }
    }
    assert(u =~= s.union_prefer_right(ca)) by {
        assert forall|k: usize| #[trigger] u.contains_key(k) == s.union_prefer_right(ca).contains_key(k) by {
            if b.2.contains_key(k) && !ca.contains_key(k) {
                assert(g.contains_key(k));
            }
            if a.2.contains_key(k) && !b.2.contains_key(k) && !ca.contains_key(k) {
                assert(!b.1.contains_key(k));
                assert(g.contains_key(k));
            }
        }
        assert forall|k: usize| u.contains_key(k) implies #[trigger] u[k] == s.union_prefer_right(ca)[k] by {
            if b.2.contains_key(k) && !ca.contains_key(k) {
                assert(g.contains_key(k));
            }
            if a.2.contains_key(k) && !b.2.contains_key(k) {
                assert(!b.1.contains_key(k));
                if !ca.contains_key(k) {
                    assert(g.contains_key(k));
                }
            }
        }
    }
}

/// Every rule fused with `c` where it fuses.
pub open spec fn fuse_all(rules: Seq<RuleView>, c: RuleView) -> Seq<RuleView> {
    Seq::new(rules.len(), |k: int| match fuse_view(rules[k], c) {
        Some(f) => f,
        None => rules[k],
    })
}

/// Whether `c` fuses with some rule.
pub open spec fn any_fuses(rules: Seq<RuleView>, c: RuleView) -> bool {
    exists|k: int| 0 <= k < rules.len() && #[trigger] fuse_view(rules[k], c) is Some
}

/// The rules and the new rules after composing `s` with each of the first `n` rules:
/// a composition fuses into every rule it fuses with, and is added when it fuses with
/// none.
pub open spec fn compose_round(s: RuleView, rules: Seq<RuleView>, n: nat) -> (Seq<RuleView>, Seq<RuleView>)
    decreases n,
{
    if n == 0 {
        (rules, Seq::empty())
    } else {
        let prev = compose_round(s, rules, (n - 1) as nat);
        match compose_view(s, prev.0[n - 1]) {
            None => prev,
            Some(c) => if any_fuses(prev.0, c) {
                (fuse_all(prev.0, c), prev.1)
            } else {
                (prev.0, prev.1.push(c))
            },
        }
    }
}

/// The index of the first silent rule.
pub open spec fn first_silent_from(rules: Seq<RuleView>, k: int) -> Option<int>
    decreases rules.len() - k,
{
    if k < 0 || k >= rules.len() {
        None
    } else if rules[k].0 is None {
        Some(k)
    } else {
        first_silent_from(rules, k + 1)
    }
}

/// The rules after one round of removing the silent rule at `i`: it is swapped out for
/// the last rule, composed with every remaining rule, and the compositions that fuse
/// with no rule are added.
pub open spec fn normalize_round(rules: Seq<RuleView>, i: int) -> Seq<RuleView> {
    let s = rules[i];
    let rest = rules.update(i, rules.last()).drop_last();
    let done = compose_round(s, rest, rest.len());
    done.0 + done.1
}

/// `s` with every element after its first occurrence removed, order kept.
pub open spec fn first_occurrences<A>(s: Seq<A>) -> Seq<A>
    decreases s.len(),
{
    if s.len() == 0 {
        Seq::empty()
    } else if s.drop_last().contains(s.last()) {
        first_occurrences(s.drop_last())
    } else {
        first_occurrences(s.drop_last()).push(s.last())
    }
}

impl RbpaRule {
    pub open spec fn guard_map(&self) -> Map<usize, bool> {
        pred_contents(self.guard)
    }

    pub open spec fn assign_map(&self) -> Map<usize, bool> {
        pred_contents(self.assign)
    }

    pub fn get_guard(&self) -> (r: &StatePred)
        ensures
            r == &self.guard,
    {
        &self.guard
    }

    pub fn get_port(&self) -> (r: &Option<LocId>)
        ensures
            *r == self.port,
    {
        &self.port
    }

    pub fn get_assign(&self) -> (r: &StatePred)
        ensures
            r == &self.assign,
    {
        &self.assign
    }

    /// Whether the rule sets any cell.
    pub fn has_effect(&self) -> (r: bool)
        ensures
            r == (self.assign_map().dom() != Set::<usize>::empty()),
    {
        !self.assign.is_empty()
    }

    /// Drops from the assignment every cell the guard already gives the same value.
    pub fn normalize(&mut self)
        ensures
            final(self).port == old(self).port,
            final(self).guard_map() == old(self).guard_map(),
            final(self).assign_map() == normalized_assign(old(self).guard_map(), old(self).assign_map()),
    {
        let ghost g = self.guard_map();
        let ghost a0 = self.assign_map();
        let keys = self.assign.keys();
        let mut i: usize = 0;
        while i < keys.len()
            invariant
                i <= keys@.len(),
                keys@.to_set() == a0.dom(),
                keys@.no_duplicates(),
                self.guard_map() == g,
                self.port == old(self).port,
                self.assign_map() == a0.restrict(
                    a0.dom().filter(|k: usize| !(keys@.take(i as int).contains(k) && pred_get(g, k) == Some(a0[k]))),
                ),
            decreases keys@.len() - i,
        {
            let k = keys[i];
            proof {
                lemma_take_step(keys@, i as int);
                assert(keys@.to_set().contains(k));
            }
            let gv = self.guard.get(k);
            let av = self.assign.get(k);
            let same = match (gv, av) {
                (Some(x), Some(y)) => x == y,
                _ => false,
            };
            proof {
                assert(!keys@.take(i as int).contains(k)) by {
                    if keys@.take(i as int).contains(k) {
                        let w = choose|w: int| 0 <= w < i && keys@.take(i as int)[w] == k;
                        assert(keys@[w] == keys@[i as int]);
                    }
                }
            }
            if same {
                self.assign.remove(k);
            }
            i += 1;
            proof {
                let cur = a0.restrict(
                    a0.dom().filter(|x: usize| !(keys@.take(i as int).contains(x) && pred_get(g, x) == Some(a0[x]))),
                );
                assert(self.assign_map() =~= cur);
            }
        }
        proof {
            assert(keys@.take(keys@.len() as int) =~= keys@);
            assert forall|x: usize| a0.contains_key(x) implies keys@.contains(x) by {
                assert(keys@.to_set().contains(x));
            }
            assert(self.assign_map() =~= normalized_assign(g, a0));
        }
    }

    /// One rule doing what both do, when there is one: the rules must share their port,
    /// their guards must be equal, nested, or split on one cell, and they must leave the
    /// same value in every guarded cell. The fused rule takes the more general guard (or
    /// the split one without that cell) and `self`'s assignment, normalized.
    pub fn fuse(&self, other: &Self) -> (r: Option<RbpaRule>)
        ensures
            ({
                let g1 = self.guard_map();
                let g2 = other.guard_map();
                let u = g1.dom() + g2.dom();
                let ok = self.port == other.port && fuse_case(g1, g2, u) is Some && forall|k: usize|
                    #[trigger] u.contains(k) ==> effective(g1, self.assign_map(), k) == effective(
                        g2,
                        other.assign_map(),
                        k,
                    );
                &&& r is Some <==> ok
                &&& r matches Some(f) ==> {
                    &&& f.port == self.port
                    &&& f.guard_map() == fused_guard(g1, g2, fuse_case(g1, g2, u).unwrap())
                    &&& f.assign_map() == normalized_assign(f.guard_map(), self.assign_map())
                }
            }),
            match r {
                Some(f) => fuse_view(rule_view(*self), rule_view(*other)) == Some(rule_view(f)),
                None => fuse_view(rule_view(*self), rule_view(*other)) is None,
            },
    {
        let ghost g1 = self.guard_map();
        let ghost g2 = other.guard_map();
        let ghost u = g1.dom() + g2.dom();
        if self.port != other.port {
            return None;
        }
        let ids = guard_union(&self.guard, &other.guard);
        proof {
            assert(cells(ids@) =~= u);
            assert(cells(ids@.take(0)) =~= Set::<usize>::empty());
            assert(fuse_case(g1, g2, Set::<usize>::empty()) == Some(FuseCase::Identical)) by {
                assert(!only_in(g1, g2, Set::<usize>::empty()));
                assert(!only_in(g2, g1, Set::<usize>::empty()));
            }
        }
        let mut case = FuseCase::Identical;
        let mut i: usize = 0;
        while i < ids.len()
            invariant
                i <= ids@.len(),
                g1 == self.guard_map(),
                g2 == other.guard_map(),
                u == g1.dom() + g2.dom(),
                cells(ids@) == u,
                forall|x: usize| #[trigger] ids@.contains(x) <==> (g1.contains_key(x) || g2.contains_key(x)),
                ids@.no_duplicates(),
                fuse_case(g1, g2, cells(ids@.take(i as int))) == Some(case),
            decreases ids@.len() - i,
        {
            let id = ids[i];
            let ghost s = cells(ids@.take(i as int));
            proof {
                lemma_take_step(ids@, i as int);
                assert(cells(ids@.take(i + 1)) =~= s.insert(id));
                lemma_fuse_case_step(g1, g2, s, id, case);
                assert(!s.contains(id)) by {
                    if ids@.take(i as int).contains(id) {
                        let w = choose|w: int| 0 <= w < i && #[trigger] ids@.take(i as int)[w] == id;
                        assert(ids@[w] == ids@[i as int]);
                    }
                }
            }
            match (self.guard.get(id), other.guard.get(id)) {
                (Some(_), None) => {
                    match case {
                        FuseCase::RightSubsumes | FuseCase::Identical => {
                            case = FuseCase::RightSubsumes;
                        },
                        _ => {
                            proof {
                                lemma_fuse_case_grows(g1, g2, s.insert(id), u);
                            }
                            return None;
                        },
                    }
                },
                (None, Some(_)) => {
                    match case {
                        FuseCase::LeftSubsumes | FuseCase::Identical => {
                            case = FuseCase::LeftSubsumes;
                        },
                        _ => {
                            proof {
                                lemma_fuse_case_grows(g1, g2, s.insert(id), u);
                            }
                            return None;
                        },
                    }
                },
                (Some(a), Some(b)) => {
                    if a != b {
                        match case {
                            FuseCase::Identical => {
                                case = FuseCase::PartitionAt(id);
                            },
                            _ => {
                                proof {
                                    lemma_fuse_case_grows(g1, g2, s.insert(id), u);
                                }
                                return None;
                            },
                        }
                    }
                },
                (None, None) => {},
            }
            i += 1;
        }
        proof {
            assert(ids@.take(ids@.len() as int) =~= ids@);
        }
        let mut j: usize = 0;
        while j < ids.len()
            invariant
                j <= ids@.len(),
                g1 == self.guard_map(),
                g2 == other.guard_map(),
                forall|x: usize| #[trigger] ids@.contains(x) <==> (g1.contains_key(x) || g2.contains_key(x)),
                forall|q: int|
                    0 <= q < j ==> effective(g1, self.assign_map(), #[trigger] ids@[q]) == effective(
                        g2,
                        other.assign_map(),
                        ids@[q],
                    ),
            decreases ids@.len() - j,
        {
            let id = ids[j];
            let left = match self.assign.get(id) {
                Some(v) => Some(v),
                None => self.guard.get(id),
            };
            let right = match other.assign.get(id) {
                Some(v) => Some(v),
                None => other.guard.get(id),
            };
            if left != right {
                proof {
                    assert(ids@.contains(id));
                    assert((g1.dom() + g2.dom()).contains(id));
                }
                return None;
            }
            j += 1;
        }
        proof {
            assert forall|k: usize| #[trigger] u.contains(k) implies effective(g1, self.assign_map(), k) == effective(
                g2,
                other.assign_map(),
                k,
            ) by {
                assert(ids@.contains(k));
                let w = choose|w: int| 0 <= w < ids@.len() && ids@[w] == k;
            }
        }
        let guard = match case {
            FuseCase::Identical | FuseCase::LeftSubsumes => self.guard.duplicate(),
            FuseCase::RightSubsumes => other.guard.duplicate(),
            FuseCase::PartitionAt(id) => {
                let mut x = self.guard.duplicate();
                x.remove(id);
                x
            },
        };
        let mut rule = RbpaRule { port: self.port, guard, assign: self.assign.duplicate() };
        rule.normalize();
        Some(rule)
    }

    /// The rule for the silent `self` followed by `other`, or `None` when a value `self`
    /// leaves fails a test of `other`.
    pub fn compose(&self, other: &Self) -> (r: Option<RbpaRule>)
        requires
            self.port is None,
        ensures
            r is Some <==> can_follow(self.guard_map(), self.assign_map(), other.guard_map()),
            r matches Some(c) ==> {
                &&& c.port == other.port
                &&& c.guard_map() == composed_guard(self.guard_map(), self.assign_map(), other.guard_map())
                &&& c.assign_map() == normalized_assign(
                    c.guard_map(),
                    composed_assign(self.assign_map(), other.guard_map(), other.assign_map()),
                )
            },
            match r {
                Some(c) => compose_view(rule_view(*self), rule_view(*other)) == Some(rule_view(c)),
                None => compose_view(rule_view(*self), rule_view(*other)) is None,
            },
    {
        let ghost g1 = self.guard_map();
        let ghost a1 = self.assign_map();
        let ghost g2 = other.guard_map();
        let ghost a2 = other.assign_map();
        let mut guard = self.guard.duplicate();
        let keys = other.guard.keys();
        let mut i: usize = 0;
        while i < keys.len()
            invariant
                i <= keys@.len(),
                keys@.to_set() == g2.dom(),
                keys@.no_duplicates(),
                g1 == self.guard_map(),
                a1 == self.assign_map(),
                g2 == other.guard_map(),
                forall|q: int|
                    0 <= q < i ==> (effective(g1, a1, #[trigger] keys@[q]) is None || effective(g1, a1, keys@[q]) == Some(
                        g2[keys@[q]],
                    )),
                pred_contents(guard) == g2.restrict(
                    cells(keys@.take(i as int)).filter(|k: usize| effective(g1, a1, k) is None),
                ).union_prefer_right(g1),
            decreases keys@.len() - i,
        {
            let id = keys[i];
            proof {
                lemma_take_step(keys@, i as int);
                assert(keys@.to_set().contains(id));
            }
            let v1 = other.guard.get(id).unwrap();
            match (self.guard.get(id), self.assign.get(id)) {
                (None, None) => {
                    guard.insert(id, v1);
                },
                (_, Some(v2)) => {
                    if v2 != v1 {
                        proof {
                            assert(!can_follow(g1, a1, g2)) by {
                                assert(g2.contains_key(id));
                            }
                        }
                        return None;
                    }
                },
                (Some(v2), None) => {
                    if v2 != v1 {
                        proof {
                            assert(!can_follow(g1, a1, g2)) by {
                                assert(g2.contains_key(id));
                            }
                        }
                        return None;
                    }
                },
            }
            i += 1;
            proof {
                assert(pred_contents(guard) =~= g2.restrict(
                    cells(keys@.take(i as int)).filter(|k: usize| effective(g1, a1, k) is None),
                ).union_prefer_right(g1));
            }
        }
        proof {
            assert(keys@.take(keys@.len() as int) =~= keys@);
            assert(cells(keys@) =~= g2.dom()) by {
                assert forall|x: usize| cells(keys@).contains(x) <==> g2.dom().contains(x) by {
                    assert(keys@.to_set().contains(x) <==> keys@.contains(x));
                }
            }
            assert(pred_contents(guard) =~= composed_guard(g1, a1, g2));
            assert forall|k: usize| #[trigger] g2.contains_key(k) implies (effective(g1, a1, k) is None || effective(g1, a1, k)
                == Some(g2[k])) by {
                assert(keys@.to_set().contains(k));
                let w = choose|w: int| 0 <= w < keys@.len() && keys@[w] == k;
            }
        }
        let mut assign = other.assign.duplicate();
        let akeys = self.assign.keys();
        let mut j: usize = 0;
        while j < akeys.len()
            invariant
                j <= akeys@.len(),
                akeys@.to_set() == a1.dom(),
                a1 == self.assign_map(),
                g2 == other.guard_map(),
                a2 == other.assign_map(),
                pred_contents(assign) == a1.restrict(
                    cells(akeys@.take(j as int)).filter(|k: usize| !g2.contains_key(k) && !a2.contains_key(k)),
                ).union_prefer_right(a2),
            decreases akeys@.len() - j,
        {
            let id = akeys[j];
            proof {
                lemma_take_step(akeys@, j as int);
                assert(akeys@.to_set().contains(id));
            }
            let v1 = self.assign.get(id).unwrap();
            match (other.guard.get(id), other.assign.get(id)) {
                (None, None) => {
                    assign.insert(id, v1);
                },
                _ => {},
            }
            j += 1;
            proof {
                assert(pred_contents(assign) =~= a1.restrict(
                    cells(akeys@.take(j as int)).filter(|k: usize| !g2.contains_key(k) && !a2.contains_key(k)),
                ).union_prefer_right(a2));
            }
        }
        proof {
            assert(akeys@.take(akeys@.len() as int) =~= akeys@);
            assert(cells(akeys@) =~= a1.dom()) by {
                assert forall|x: usize| cells(akeys@).contains(x) <==> a1.dom().contains(x) by {
                    assert(akeys@.to_set().contains(x) <==> akeys@.contains(x));
                }
            }
            assert(pred_contents(assign) =~= composed_assign(a1, g2, a2));
        }
        let mut rule = RbpaRule { port: other.port, guard, assign };
        rule.normalize();
        Some(rule)
    }

    /// Whether the two rules' guards clash on some cell, so that both can never fire in
    /// the same state.
    pub fn is_mutex_with(&self, other: &Self) -> (r: bool)
        ensures
            r == exists|k: usize| clash_at(self.guard_map(), other.guard_map(), k),
    {
        let ids = guard_union(&self.guard, &other.guard);
        let mut i: usize = 0;
        while i < ids.len()
            invariant
                i <= ids@.len(),
                forall|x: usize| #[trigger] ids@.contains(x) <==> (self.guard_map().contains_key(x) || other.guard_map().contains_key(x)),
                forall|j: int| 0 <= j < i ==> !clash_at(self.guard_map(), other.guard_map(), #[trigger] ids@[j]),
            decreases ids@.len() - i,
        {
            let id = ids[i];
            match (self.guard.get(id), other.guard.get(id)) {
                (Some(a), Some(b)) => {
                    if a != b {
                        proof {
                            assert(clash_at(self.guard_map(), other.guard_map(), id));
                        }
                        return true;
                    }
                },
                _ => {},
            }
            i += 1;
        }
        proof {
            assert forall|k: usize| !clash_at(self.guard_map(), other.guard_map(), k) by {
                if clash_at(self.guard_map(), other.guard_map(), k) {
                    assert(ids@.contains(k));
                    let w = choose|w: int| 0 <= w < ids@.len() && ids@[w] == k;
                }
            }
        }
        false
    }

    /// Adds the rule's guard to `guard`, cell by cell in the map's order; refused at the
    /// first cell where `guard` already holds the other value (the cells added before it
    /// stay added: which those are depends on the order in which the map is walked).
    pub fn constrain_guard(&self, guard: &mut StatePred) -> (r: Result<(), LocId>)
        ensures
            r is Ok <==> forall|k: usize| !#[trigger] clash_at(self.guard_map(), pred_contents(*old(guard)), k),
            r is Ok ==> pred_contents(*final(guard)) == self.guard_map().union_prefer_right(pred_contents(*old(guard))),
            r matches Err(id) ==> clash_at(self.guard_map(), pred_contents(*old(guard)), id),
            r is Err ==> exists|added: Set<usize>|
                pred_contents(*final(guard)) == self.guard_map().restrict(added).union_prefer_right(
                    pred_contents(*old(guard)),
                ),
    {
        let ghost m0 = pred_contents(*guard);
        let ghost g = self.guard_map();
        let keys = self.guard.keys();
        let mut i: usize = 0;
        while i < keys.len()
            invariant
                i <= keys@.len(),
                keys@.to_set() == g.dom(),
                keys@.no_duplicates(),
                g == self.guard_map(),
                m0 == pred_contents(*old(guard)),
                forall|j: int| 0 <= j < i ==> !clash_at(g, m0, #[trigger] keys@[j]),
                pred_contents(*guard) == g.restrict(cells(keys@.take(i as int))).union_prefer_right(m0),
            decreases keys@.len() - i,
        {
            let id = keys[i];
            proof {
                lemma_take_step(keys@, i as int);
                assert(keys@.to_set().contains(id));
                assert(!keys@.take(i as int).contains(id)) by {
                    if keys@.take(i as int).contains(id) {
                        let w = choose|w: int| 0 <= w < i && #[trigger] keys@.take(i as int)[w] == id;
                        assert(keys@[w] == keys@[i as int]);
                    }
                }
            }
            let b = self.guard.get(id).unwrap();
            let ghost cur = pred_contents(*guard);
            let b2 = match guard.get(id) {
                Some(x) => x,
                None => {
                    guard.insert(id, b);
                    b
                },
            };
            if b2 != b {
                proof {
                    assert(cur.contains_key(id) && cur[id] == b2);
                    assert(!g.restrict(cells(keys@.take(i as int))).contains_key(id));
                    assert(m0.contains_key(id) && m0[id] == b2);
                    assert(clash_at(g, m0, id));
                    assert(pred_contents(*guard) == g.restrict(cells(keys@.take(i as int))).union_prefer_right(m0));
                }
                return Err(id);
            }
            i += 1;
            proof {
                assert(pred_contents(*guard) =~= g.restrict(cells(keys@.take(i as int))).union_prefer_right(m0));
            }
        }
        proof {
            assert(keys@.take(keys@.len() as int) =~= keys@);
            assert forall|k: usize| !#[trigger] clash_at(g, m0, k) by {
                if clash_at(g, m0, k) {
                    assert(keys@.to_set().contains(k));
                    let w = choose|w: int| 0 <= w < keys@.len() && keys@[w] == k;
                }
            }
            assert(cells(keys@) =~= g.dom()) by {
                assert forall|x: usize| cells(keys@).contains(x) <==> g.dom().contains(x) by {
                    assert(keys@.to_set().contains(x) <==> keys@.contains(x));
                }
            }
            assert(g.restrict(cells(keys@)) =~= g);
        }
        Ok(())
    }
}

/// Whether the two rules are the same rule.
pub fn same_rule(a: &RbpaRule, b: &RbpaRule) -> (r: bool)
    ensures
        r == (rule_view(*a) == rule_view(*b)),
{
    a.port == b.port && a.guard.equals(&b.guard) && a.assign.equals(&b.assign)
}

/// A copy of the rule.
pub fn copy_rule(a: &RbpaRule) -> (r: RbpaRule)
    ensures
        rule_view(r) == rule_view(*a),
{
    RbpaRule { port: a.port, guard: a.guard.duplicate(), assign: a.assign.duplicate() }
}

proof fn lemma_first_occurrences_contains<A>(s: Seq<A>)
    ensures
        forall|x: A| #[trigger] first_occurrences(s).contains(x) <==> s.contains(x),
    decreases s.len(),
{
    if s.len() > 0 {
        lemma_first_occurrences_contains(s.drop_last());
        let prev = first_occurrences(s.drop_last());
        assert forall|x: A| #[trigger] first_occurrences(s).contains(x) <==> s.contains(x) by {
            if !s.drop_last().contains(s.last()) {
                if prev.push(s.last()).contains(x) {
                    let w = choose|w: int| 0 <= w < prev.len() + 1 && #[trigger] prev.push(s.last())[w] == x;
                    if w < prev.len() {
                        assert(prev[w] == x);
                    }
                }
                if prev.contains(x) {
                    let w = choose|w: int| 0 <= w < prev.len() && #[trigger] prev[w] == x;
                    assert(prev.push(s.last())[w] == x);
                }
                if x == s.last() {
                    assert(prev.push(s.last())[prev.len() as int] == x);
                }
            }
            if s.contains(x) {
                let w = choose|w: int| 0 <= w < s.len() && #[trigger] s[w] == x;
                if w < s.len() - 1 {
                    assert(s.drop_last()[w] == x);
                }
            }
            if s.drop_last().contains(x) {
                let w = choose|w: int| 0 <= w < s.drop_last().len() && #[trigger] s.drop_last()[w] == x;
                assert(s[w] == x);
            }
        }
    }
}

/// Normalizing twice is normalizing once.
pub proof fn law_normalize_idempotent(guard: Map<usize, bool>, assign: Map<usize, bool>)
    ensures
        normalized_assign(guard, normalized_assign(guard, assign)) == normalized_assign(guard, assign),
{
    assert(normalized_assign(guard, normalized_assign(guard, assign)) =~= normalized_assign(guard, assign));
}

/// After deduplication every rule occurs once, and no rule is lost or added.
pub proof fn law_dedup_unique<A>(s: Seq<A>)
    ensures
        first_occurrences(s).no_duplicates(),
        forall|x: A| #[trigger] first_occurrences(s).contains(x) <==> s.contains(x),
    decreases s.len(),
{
    lemma_first_occurrences_contains(s);
    if s.len() > 0 {
        law_dedup_unique(s.drop_last());
        lemma_first_occurrences_contains(s.drop_last());
        let prev = first_occurrences(s.drop_last());
        if !s.drop_last().contains(s.last()) {
            let q = prev.push(s.last());
            assert forall|i: int, j: int| 0 <= i < q.len() && 0 <= j < q.len() && i != j implies q[i] != q[j] by {
                if i == prev.len() {
                    assert(prev[j] == q[j]);
                    assert(prev.contains(q[j]));
                } else if j == prev.len() {
                    assert(prev[i] == q[i]);
                    assert(prev.contains(q[i]));
                }
            }
        }
    }
}

/// A set of location ids (a `hashbrown::HashSet<LocId>`).
#[verifier::external_body]
pub struct LocSet {
    inner: hashbrown::HashSet<LocId>,
}

/// What a [`LocSet`] holds.
pub uninterp spec fn loc_set_contents(s: LocSet) -> Set<usize>;

impl LocSet {
    /// `hashbrown::HashSet::new`: the set starts empty.
    #[verifier::external_body]
    pub fn new() -> (r: LocSet)
        ensures
            loc_set_contents(r) =~= Set::empty(),
    {
        LocSet { inner: hashbrown::HashSet::new() }
    }

    /// `hashbrown::HashSet::insert`: adds `id`.
    #[verifier::external_body]
    pub fn insert(&mut self, id: LocId)
        ensures
            loc_set_contents(*final(self)) == loc_set_contents(*old(self)).insert(id),
    {
        self.inner.insert(id);
    }

    /// `hashbrown::HashSet::contains`.
    #[verifier::external_body]
    pub fn contains(&self, id: LocId) -> (r: bool)
        ensures
            r == loc_set_contents(*self).contains(id),
    {
        self.inner.contains(&id)
    }
}

/// The locations a rule's actions touch, in order: each putter, then its getters; the
/// flag tells putters from getters.
pub open spec fn touches(actions: Seq<ActionDef>) -> Seq<(usize, bool)>
    decreases actions.len(),
{
    if actions.len() == 0 {
        Seq::empty()
    } else {
        let a = actions.last();
        touches(actions.drop_last()) + seq![(a.putter, true)] + a.getters@.map_values(|g: usize| (g, false))
    }
}

/// The port a rule moves through, or the first two ports it would move through at once.
pub open spec fn port_of(events: Seq<(usize, bool)>, ports: Set<usize>) -> Result<Option<usize>, (usize, usize)>
    decreases events.len(),
{
    if events.len() == 0 {
        Ok(None)
    } else {
        match port_of(events.drop_last(), ports) {
            Err(e) => Err(e),
            Ok(p) => {
                let id = events.last().0;
                if !ports.contains(id) {
                    Ok(p)
                } else {
                    match p {
                        Some(was) => Err((was, id)),
                        None => Ok(Some(id)),
                    }
                }
            },
        }
    }
}

/// The guard a rule's actions give: a memory putter must be full, a memory getter
/// (not already tested) empty.
pub open spec fn guard_of(events: Seq<(usize, bool)>, num_ports: usize) -> Map<usize, bool>
    decreases events.len(),
{
    if events.len() == 0 {
        Map::empty()
    } else {
        let prev = guard_of(events.drop_last(), num_ports);
        let (id, is_putter) = events.last();
        if id < num_ports {
            prev
        } else if is_putter {
            prev.insert(id, true)
        } else if prev.contains_key(id) {
            prev
        } else {
            prev.insert(id, false)
        }
    }
}

/// The assignment a rule's actions give: a memory putter becomes empty, a memory getter
/// full.
pub open spec fn assign_of(events: Seq<(usize, bool)>, num_ports: usize) -> Map<usize, bool>
    decreases events.len(),
{
    if events.len() == 0 {
        Map::empty()
    } else {
        let prev = assign_of(events.drop_last(), num_ports);
        let (id, is_putter) = events.last();
        if id < num_ports {
            prev
        } else {
            prev.insert(id, !is_putter)
        }
    }
}

/// The rule a protocol rule becomes, or the two ports it would move through at once.
pub open spec fn rule_of(actions: Seq<ActionDef>, num_ports: usize, ports: Set<usize>) -> Result<RuleView, (usize, usize)> {
    let ev = touches(actions);
    match port_of(ev, ports) {
        Err(e) => Err(e),
        Ok(p) => {
            let g = guard_of(ev, num_ports);
            Ok((p, g, normalized_assign(g, assign_of(ev, num_ports))))
        },
    }
}

/// Walks the touches of a rule, updating the port, guard and assignment.
fn touch(
    id: LocId,
    is_putter: bool,
    num_ports: usize,
    port_set: &LocSet,
    port: &mut Option<LocId>,
    guard: &mut StatePred,
    assign: &mut StatePred,
) -> (r: Result<(), (usize, usize)>)
    ensures
        ({
            let ev = seq![(id, is_putter)];
            &&& r is Err ==> r == Err::<(), (usize, usize)>(((*old(port)).unwrap(), id))
                && (*old(port)) is Some && loc_set_contents(*port_set).contains(id)
            &&& r is Ok ==> !((*old(port)) is Some && loc_set_contents(*port_set).contains(id))
            &&& r is Ok ==> *final(port) == (if loc_set_contents(*port_set).contains(id) {
                Some(id)
            } else {
                *old(port)
            })
            &&& r is Ok ==> pred_contents(*final(guard)) == (if id < num_ports {
                pred_contents(*old(guard))
            } else if is_putter {
                pred_contents(*old(guard)).insert(id, true)
            } else if pred_contents(*old(guard)).contains_key(id) {
                pred_contents(*old(guard))
            } else {
                pred_contents(*old(guard)).insert(id, false)
            })
            &&& r is Ok ==> pred_contents(*final(assign)) == (if id < num_ports {
                pred_contents(*old(assign))
            } else {
                pred_contents(*old(assign)).insert(id, !is_putter)
            })
        }),
{
    if port_set.contains(id) {
        match *port {
            Some(was) => {
                return Err((was, id));
            },
            None => {
                *port = Some(id);
            },
        }
    }
    if id >= num_ports {
        if is_putter {
            guard.insert(id, true);
            assign.insert(id, false);
        } else {
            match guard.get(id) {
                Some(_) => {},
                None => {
                    guard.insert(id, false);
                },
            }
            assign.insert(id, true);
        }
    }
    Ok(())
}

proof fn lemma_port_of_err_stays(e1: Seq<(usize, bool)>, e2: Seq<(usize, bool)>, ports: Set<usize>)
    requires
        port_of(e1, ports) is Err,
    ensures
        port_of(e1 + e2, ports) == port_of(e1, ports),
    decreases e2.len(),
{
    if e2.len() > 0 {
        lemma_port_of_err_stays(e1, e2.drop_last(), ports);
        assert((e1 + e2).drop_last() =~= e1 + e2.drop_last());
    }
}

/// The rule a protocol rule's actions give over the ports of `port_set` (locations from
/// `num_ports` on are memory cells), or the two ports it would move through at once.
pub fn build_rbpa_rule(actions: &Vec<ActionDef>, num_ports: usize, port_set: &LocSet) -> (r: Result<RbpaRule, (usize, usize)>)
    ensures
        match rule_of(actions@, num_ports, loc_set_contents(*port_set)) {
            Err(e) => r == Err::<RbpaRule, (usize, usize)>(e),
            Ok(v) => r matches Ok(rule) && rule_view(rule) == v,
        },
{
    let ghost ports = loc_set_contents(*port_set);
    let mut port: Option<LocId> = None;
    let mut guard = StatePred::new();
    let mut assign = StatePred::new();
    let ghost mut ev: Seq<(usize, bool)> = Seq::empty();
    let mut a: usize = 0;
    while a < actions.len()
        invariant
            a <= actions@.len(),
            ports == loc_set_contents(*port_set),
            ev == touches(actions@.take(a as int)),
            port_of(ev, ports) == Ok::<Option<usize>, (usize, usize)>(port),
            pred_contents(guard) == guard_of(ev, num_ports),
            pred_contents(assign) == assign_of(ev, num_ports),
        decreases actions@.len() - a,
    {
        let action = &actions[a];
        let ghost ev0 = ev;
        proof {
            assert(actions@.take(a + 1).drop_last() =~= actions@.take(a as int));
            assert(actions@.take(a + 1).last() == actions@[a as int]);
        }
        match touch(action.putter, true, num_ports, port_set, &mut port, &mut guard, &mut assign) {
            Err(e) => {
                proof {
                    let full = touches(actions@);
                    let pre = ev0.push((action.putter, true));
                    assert(port_of(pre, ports) == Err::<Option<usize>, (usize, usize)>(e)) by {
                        assert(pre.drop_last() =~= ev0);
                    }
                    let rest = action.getters@.map_values(|x: usize| (x, false)) + touches(actions@.skip(a + 1));
                    lemma_touches_split(actions@, a as int);
                    assert(full =~= pre + rest);
                    lemma_port_of_err_stays(pre, rest, ports);
                }
                return Err(e);
            },
            Ok(()) => {},
        }
        proof {
            let pre = ev0.push((action.putter, true));
            assert(pre.drop_last() =~= ev0);
            ev = pre;
        }
        let mut g: usize = 0;
        while g < action.getters.len()
            invariant
                g <= action.getters@.len(),
                a < actions@.len(),
                action == &actions@[a as int],
                ports == loc_set_contents(*port_set),
                ev == ev0 + seq![(action.putter, true)] + action.getters@.take(g as int).map_values(|x: usize| (x, false)),
                ev0 == touches(actions@.take(a as int)),
                port_of(ev, ports) == Ok::<Option<usize>, (usize, usize)>(port),
                pred_contents(guard) == guard_of(ev, num_ports),
                pred_contents(assign) == assign_of(ev, num_ports),
            decreases action.getters@.len() - g,
        {
            let id = action.getters[g];
            let ghost ev1 = ev;
            let ghost next = ev1.push((id, false));
            proof {
                assert(next.drop_last() =~= ev1);
                assert(ev0 + seq![(action.putter, true)] + action.getters@.take(g + 1).map_values(|x: usize| (x, false))
                    =~= next);
            }
            match touch(id, false, num_ports, port_set, &mut port, &mut guard, &mut assign) {
                Err(e) => {
                    proof {
                        let full = touches(actions@);
                        assert(port_of(next, ports) == Err::<Option<usize>, (usize, usize)>(e));
                        let rest = action.getters@.skip(g + 1).map_values(|x: usize| (x, false)) + touches(
                            actions@.skip(a + 1),
                        );
                        lemma_touches_split(actions@, a as int);
                        assert(action.getters@.map_values(|x: usize| (x, false)) =~= action.getters@.take(g + 1).map_values(
                            |x: usize| (x, false),
                        ) + action.getters@.skip(g + 1).map_values(|x: usize| (x, false)));
                        assert(full =~= next + rest);
                        lemma_port_of_err_stays(next, rest, ports);
                    }
                    return Err(e);
                },
                Ok(()) => {},
            }
            proof {
                ev = next;
            }
            g += 1;
        }
        proof {
            assert(action.getters@.take(action.getters@.len() as int) =~= action.getters@);
            lemma_touches_split(actions@.take(a + 1), a as int);
            assert(actions@.take(a + 1).take(a as int) =~= actions@.take(a as int));
            assert(actions@.take(a + 1).skip(a + 1) =~= Seq::<ActionDef>::empty());
            assert(touches(actions@.take(a + 1)) =~= ev);
        }
        a += 1;
    }
    proof {
        assert(actions@.take(actions@.len() as int) =~= actions@);
    }
    let mut rule = RbpaRule { port, guard, assign };
    rule.normalize();
    Ok(rule)
}

proof fn lemma_touches_append(x: Seq<ActionDef>, y: Seq<ActionDef>)
    ensures
        touches(x + y) == touches(x) + touches(y),
    decreases y.len(),
{
    if y.len() == 0 {
        assert(x + y =~= x);
        assert(touches(x) + touches(y) =~= touches(x));
    } else {
        lemma_touches_append(x, y.drop_last());
        assert((x + y).drop_last() =~= x + y.drop_last());
        assert((x + y).last() == y.last());
        let a = y.last();
        let tail = seq![(a.putter, true)] + a.getters@.map_values(|g: usize| (g, false));
        assert(touches(x + y) =~= touches(x + y.drop_last()) + seq![(a.putter, true)] + a.getters@.map_values(
            |g: usize| (g, false),
        ));
        assert(touches(y) =~= touches(y.drop_last()) + seq![(a.putter, true)] + a.getters@.map_values(
            |g: usize| (g, false),
        ));
        assert(touches(x + y) =~= touches(x) + touches(y));
    }
}

/// The touches of all actions: those before action `a`, then action `a`'s putter and
/// getters, then those after.
proof fn lemma_touches_split(actions: Seq<ActionDef>, a: int)
    requires
        0 <= a < actions.len(),
    ensures
        touches(actions) == touches(actions.take(a)) + seq![(actions[a].putter, true)]
            + actions[a].getters@.map_values(|g: usize| (g, false)) + touches(actions.skip(a + 1)),
{
    let one = seq![actions[a]];
    assert(actions =~= actions.take(a) + one + actions.skip(a + 1));
    lemma_touches_append(actions.take(a) + one, actions.skip(a + 1));
    lemma_touches_append(actions.take(a), one);
    assert(one.drop_last() =~= Seq::<ActionDef>::empty());
    assert(one.last() == actions[a]);
    assert(touches(one.drop_last()) == touches(Seq::<ActionDef>::empty()));
    assert(touches(Seq::<ActionDef>::empty()) =~= Seq::<(usize, bool)>::empty());
    assert(touches(one) =~= seq![(actions[a].putter, true)] + actions[a].getters@.map_values(|g: usize| (g, false)));
    assert(touches(actions) =~= touches(actions.take(a)) + seq![(actions[a].putter, true)]
        + actions[a].getters@.map_values(|g: usize| (g, false)) + touches(actions.skip(a + 1)));
}

/// A port automaton over partial memory states.
pub struct Rbpa {
    pub rules: Vec<RbpaRule>,
}

impl Rbpa {
    /// One round of removing silent rules: the first silent rule is swapped out for the
    /// last rule and composed with every remaining rule; each composition fuses into
    /// every rule it fuses with, and is added when it fuses with none. Whether there was
    /// a silent rule.
    pub fn normalize_step(&mut self) -> (progressed: bool)
        ensures
            match first_silent_from(views(old(self).rules@), 0) {
                None => !progressed && views(final(self).rules@) == views(old(self).rules@),
                Some(i) => progressed && views(final(self).rules@) == normalize_round(views(old(self).rules@), i),
            },
    {
        let ghost v0 = views(self.rules@);
        let n = self.rules.len();
        let mut i: usize = 0;
        while i < n && self.rules[i].port.is_some()
            invariant
                n == self.rules@.len(),
                v0 == views(self.rules@),
                i <= n,
                first_silent_from(v0, 0) == first_silent_from(v0, i as int),
            decreases n - i,
        {
            i += 1;
        }
        if i == n {
            return false;
        }
        let r1 = self.rules.swap_remove(i);
        let ghost s = rule_view(r1);
        let ghost rest = views(self.rules@);
        proof {
            assert(rest =~= v0.update(i as int, v0.last()).drop_last());
        }
        let m = self.rules.len();
        let mut buf: Vec<RbpaRule> = Vec::new();
        let mut rid2: usize = 0;
        while rid2 < m
            invariant
                m == self.rules@.len(),
                rid2 <= m,
                r1.port is None,
                s == rule_view(r1),
                rest.len() == m,
                compose_round(s, rest, rid2 as nat) == (views(self.rules@), views(buf@)),
            decreases m - rid2,
        {
            match r1.compose(&self.rules[rid2]) {
                Some(c) => {
                    let ghost before = views(self.rules@);
                    let mut did = false;
                    let mut k: usize = 0;
                    while k < m
                        invariant
                            m == self.rules@.len(),
                            k <= m,
                            before.len() == m,
                            views(self.rules@) == Seq::new(m as nat, |q: int| if q < k {
                                fuse_all(before, rule_view(c))[q]
                            } else {
                                before[q]
                            }),
                            did == exists|q: int| 0 <= q < k && #[trigger] fuse_view(before[q], rule_view(c)) is Some,
                        decreases m - k,
                    {
                        proof {
                            assert(views(self.rules@)[k as int] == before[k as int]);
                            assert(views(self.rules@)[k as int] == rule_view(self.rules@[k as int]));
                        }
                        let ghost cur = views(self.rules@);
                        let f = self.rules[k].fuse(&c);
                        match f {
                            Some(f) => {
                                self.rules[k] = f;
                                did = true;
                                proof {
                                    assert(fuse_view(before[k as int], rule_view(c)) is Some);
                                    assert(views(self.rules@) =~= cur.update(k as int, rule_view(f)));
                                }
                            },
                            None => {
                                proof {
                                    assert(fuse_view(before[k as int], rule_view(c)) is None);
                                }
                            },
                        }
                        k += 1;
                        proof {
                            assert(views(self.rules@) =~= Seq::new(m as nat, |q: int| if q < k {
                                fuse_all(before, rule_view(c))[q]
                            } else {
                                before[q]
                            }));
                        }
                    }
                    proof {
                        assert(views(self.rules@) =~= fuse_all(before, rule_view(c)));
                    }
                    if !did {
                        buf.push(c);
                        proof {
                            assert(views(buf@) =~= compose_round(s, rest, (rid2 + 1) as nat).1);
                        }
                    }
                },
                None => {},
            }
            rid2 += 1;
        }
        let ghost before_append = views(self.rules@);
        let ghost buf_views = views(buf@);
        self.rules.append(&mut buf);
        proof {
            assert(views(self.rules@) =~= before_append + buf_views);
        }
        true
    }

    /// Keeps only the first occurrence of every rule.
    pub fn dedup_rules(&mut self)
        ensures
            views(final(self).rules@) == first_occurrences(views(old(self).rules@)),
    {
        let mut rules: Vec<RbpaRule> = Vec::new();
        std::mem::swap(&mut rules, &mut self.rules);
        let ghost v0 = views(rules@);
        let n = rules.len();
        let mut i: usize = 0;
        while i < n
            invariant
                n == rules@.len(),
                v0 == views(rules@),
                i <= n,
                views(self.rules@) == first_occurrences(v0.take(i as int)),
            decreases n - i,
        {
            let r = &rules[i];
            let mut found = false;
            let mut k: usize = 0;
            while k < self.rules.len()
                invariant
                    k <= self.rules@.len(),
                    found == exists|q: int| 0 <= q < k && views(self.rules@)[q] == rule_view(*r),
                decreases self.rules@.len() - k,
            {
                if same_rule(&self.rules[k], r) {
                    found = true;
                    proof {
                        assert(views(self.rules@)[k as int] == rule_view(self.rules@[k as int]));
                    }
                }
                k += 1;
            }
            proof {
                lemma_first_occurrences_contains(v0.take(i as int));
                assert(v0.take(i + 1).drop_last() =~= v0.take(i as int));
                assert(v0.take(i + 1).last() == rule_view(*r));
                if found {
                    let q = choose|q: int| 0 <= q < self.rules@.len() && views(self.rules@)[q] == rule_view(*r);
                    assert(first_occurrences(v0.take(i as int)).contains(rule_view(*r)));
                } else {
                    assert(!first_occurrences(v0.take(i as int)).contains(rule_view(*r))) by {
                        if first_occurrences(v0.take(i as int)).contains(rule_view(*r)) {
                            let q = choose|q: int|
                                0 <= q < first_occurrences(v0.take(i as int)).len() && first_occurrences(v0.take(i as int))[q]
                                    == rule_view(*r);
                            assert(views(self.rules@)[q] == rule_view(*r));
                        }
                    }
                }
            }
            if !found {
                let ghost before = views(self.rules@);
                self.rules.push(copy_rule(r));
                proof {
                    assert(views(self.rules@) =~= before.push(rule_view(*r)));
                }
            }
            i += 1;
        }
        proof {
            assert(v0.take(n as int) =~= v0);
        }
    }
}

/// The rules the first `n` protocol rules give, in order, or the first protocol rule
/// (with its two ports) that would move through two ports at once.
pub open spec fn rules_of(rule_actions: Seq<Vec<ActionDef>>, n: nat, num_ports: usize, ports: Set<usize>) -> Result<
    Seq<RuleView>,
    (usize, (usize, usize)),
>
    decreases n,
{
    if n == 0 {
        Ok(Seq::empty())
    } else {
        match rules_of(rule_actions, (n - 1) as nat, num_ports, ports) {
            Err(e) => Err(e),
            Ok(prev) => match rule_of(rule_actions[n - 1]@, num_ports, ports) {
                Err(e) => Err(((n - 1) as usize, e)),
                Ok(v) => Ok(prev.push(v)),
            },
        }
    }
}

/// The automaton of a protocol whose rules have the actions `rule_actions`, seen
/// through the ports of `port_set` (locations from `num_ports` on are memory cells):
/// one rule per protocol rule, each rule once; refused at the first protocol rule that
/// would move through two of those ports at once.
pub fn new_rbpa(rule_actions: &Vec<Vec<ActionDef>>, num_ports: usize, port_set: &LocSet) -> (r: Result<Rbpa, RbpaBuildErr>)
    ensures
        match rules_of(rule_actions@, rule_actions@.len(), num_ports, loc_set_contents(*port_set)) {
            Err((rule_id, (a, b))) => r matches Err(RbpaBuildErr::SynchronousFiring { loc_ids, rule_id: rid })
                && loc_ids == [a, b] && rid == rule_id,
            Ok(vs) => r matches Ok(rb) && views(rb.rules@) == first_occurrences(vs),
        },
{
    let ghost ports = loc_set_contents(*port_set);
    let mut rules: Vec<RbpaRule> = Vec::new();
    let ghost mut built: Seq<RuleView> = Seq::empty();
    let mut i: usize = 0;
    while i < rule_actions.len()
        invariant
            i <= rule_actions@.len(),
            ports == loc_set_contents(*port_set),
            rules_of(rule_actions@, i as nat, num_ports, ports) == Ok::<Seq<RuleView>, (usize, (usize, usize))>(built),
            views(rules@) == first_occurrences(built),
        decreases rule_actions@.len() - i,
    {
        match build_rbpa_rule(&rule_actions[i], num_ports, port_set) {
            Err((a, b)) => {
                proof {
                    lemma_rules_of_err_stays(rule_actions@, (i + 1) as nat, rule_actions@.len(), num_ports, ports);
                }
                return Err(RbpaBuildErr::SynchronousFiring { loc_ids: [a, b], rule_id: i });
            },
            Ok(rule) => {
                let ghost v = rule_view(rule);
                let mut found = false;
                let mut k: usize = 0;
                while k < rules.len()
                    invariant
                        k <= rules@.len(),
                        v == rule_view(rule),
                        found == exists|q: int| 0 <= q < k && views(rules@)[q] == v,
                    decreases rules@.len() - k,
                {
                    if same_rule(&rules[k], &rule) {
                        found = true;
                        proof {
                            assert(views(rules@)[k as int] == rule_view(rules@[k as int]));
                        }
                    }
                    k += 1;
                }
                proof {
                    lemma_first_occurrences_contains(built);
                    let next = built.push(v);
                    assert(next.drop_last() =~= built);
                    if found {
                        let q = choose|q: int| 0 <= q < rules@.len() && views(rules@)[q] == v;
                        assert(first_occurrences(built).contains(v));
                    } else {
                        assert(!first_occurrences(built).contains(v)) by {
                            if first_occurrences(built).contains(v) {
                                let q = choose|q: int| 0 <= q < first_occurrences(built).len() && first_occurrences(built)[q] == v;
                                assert(views(rules@)[q] == v);
                            }
                        }
                    }
                    built = next;
                }
                if !found {
                    let ghost before = views(rules@);
                    rules.push(rule);
                    proof {
                        assert(views(rules@) =~= before.push(v));
                    }
                }
            },
        }
        i += 1;
    }
    Ok(Rbpa { rules })
}

proof fn lemma_rules_of_err_stays(rule_actions: Seq<Vec<ActionDef>>, n: nat, m: nat, num_ports: usize, ports: Set<usize>)
    requires
        n <= m,
        rules_of(rule_actions, n, num_ports, ports) is Err,
    ensures
        rules_of(rule_actions, m, num_ports, ports) == rules_of(rule_actions, n, num_ports, ports),
    decreases m - n,
{
    if n < m {
        lemma_rules_of_err_stays(rule_actions, n, (m - 1) as nat, num_ports, ports);
    }
}

/// Why an automaton could not be built from a protocol.
#[derive(Debug, Copy, Clone)]
pub enum RbpaBuildErr {
    SynchronousFiring { loc_ids: [LocId; 2], rule_id: RuleId },
}

} // verus!
