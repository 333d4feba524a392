//! Sets of two-bit values over a bit set.
use crate::bitset::{set_chunks, BitSet};
use vstd::prelude::*;

verus! {

/// A pair of booleans.
#[derive(Debug, Copy, Clone, Eq, PartialEq, Structural)]
pub enum Quat {
    FF,
    FT,
    TF,
    TT,
}

impl Quat {
    pub open spec fn spec_first(self) -> bool {
        self is TF || self is TT
    }

    pub open spec fn spec_second(self) -> bool {
        self is FT || self is TT
    }

    pub fn first_is_true(self) -> (r: bool)
        ensures
            r == self.spec_first(),
    {
        match self {
            Quat::FF | Quat::FT => false,
            Quat::TF | Quat::TT => true,
        }
    }

    pub fn second_is_true(self) -> (r: bool)
        ensures
            r == self.spec_second(),
    {
        match self {
            Quat::FT | Quat::TT => true,
            Quat::FF | Quat::TF => false,
        }
    }
}

/// Quats stored two bits each: entry `idx` at bits `2 * idx` and `2 * idx + 1`.
#[derive(Clone)]
pub struct QuatSet {
    pub data: BitSet,
}

impl QuatSet {
    /// Stores `quat` at entry `idx`.
    pub fn set(&mut self, idx: usize, quat: Quat)
        requires
            idx <= usize::MAX / 2 - 1,
        ensures
            final(self).data@ == set_chunks(
                set_chunks(old(self).data@, (idx * 2) as usize, quat.spec_first()),
                (idx * 2 + 1) as usize,
                quat.spec_second(),
            ),
            final(self).data.has(idx * 2) == quat.spec_first(),
            final(self).data.has(idx * 2 + 1) == quat.spec_second(),
            forall|i: int| i != idx * 2 && i != idx * 2 + 1 ==> final(self).data.has(i) == old(self).data.has(i),
    {
        self.data.set_to(idx * 2, quat.first_is_true());
        self.data.set_to(idx * 2 + 1, quat.second_is_true());
    }
}

impl Default for QuatSet {
    fn default() -> (r: Self)
        ensures
            r.data@ == Seq::<usize>::empty(),
    {
        QuatSet { data: BitSet::default() }
    }
}

/// Whether every chunk of `g` meets neither `m` nor `r` over their common prefix, and the
/// chunks of `g` beyond the shorter of `m` and `r` are zero.
pub open spec fn spec_can_fire(m: Seq<usize>, r: Seq<usize>, g: Seq<usize>) -> bool {
    let l2 = if m.len() <= r.len() { m.len() } else { r.len() };
    &&& forall|k: int| 0 <= k < m.len() && k < r.len() && k < g.len() ==> #[trigger] ((m[k] | r[k]) & g[k]) == 0
    &&& forall|k: int| l2 <= k < g.len() ==> #[trigger] g[k] == 0
}

/// Whether the `guard` quats overlap neither the `memory` nor the `ready` quats.
pub fn proto_rule_can_fire(memory: &QuatSet, ready: &QuatSet, guard: &QuatSet) -> (r: bool)
    ensures
        r == spec_can_fire(memory.data@, ready.data@, guard.data@),
{
    let m = &memory.data.data;
    let rd = &ready.data.data;
    let g = &guard.data.data;
    let mut k: usize = 0;
    while k < m.len() && k < rd.len() && k < g.len()
        invariant
            m@ == memory.data@,
            rd@ == ready.data@,
            g@ == guard.data@,
            k <= m@.len(),
            forall|j: int| 0 <= j < k ==> #[trigger] ((m@[j] | rd@[j]) & g@[j]) == 0,
        decreases m@.len() - k,
    {
        if (m[k] | rd[k]) & g[k] != 0 {
            assert(((m@[k as int] | rd@[k as int]) & g@[k as int]) != 0);
            return false;
        }
        k += 1;
    }
    let l2 = if m.len() <= rd.len() { m.len() } else { rd.len() };
    if g.len() > l2 {
        let mut j: usize = l2;
        while j < g.len()
            invariant
                g@ == guard.data@,
                l2 == (if memory.data@.len() <= ready.data@.len() { memory.data@.len() } else { ready.data@.len() }),
                l2 <= j <= g@.len(),
                forall|x: int| l2 <= x < j ==> #[trigger] g@[x] == 0,
            decreases g@.len() - j,
        {
            if g[j] != 0 {
                assert(g@[j as int] != 0);
                return false;
            }
            j += 1;
        }
        true
    } else {
        true
    }
}

/// Whether every chunk of `p` misses `m` over their common prefix, and the chunks of `p`
/// beyond `m` are zero.
pub open spec fn spec_describes(m: Seq<usize>, p: Seq<usize>) -> bool {
    &&& forall|k: int| 0 <= k < m.len() && k < p.len() ==> #[trigger] (m[k] & p[k]) == 0
    &&& forall|k: int| m.len() <= k < p.len() ==> #[trigger] p[k] == 0
}

/// Whether the predicate quats `pred` overlap none of the `memory` quats.
pub fn predicate_describes_state(memory: &QuatSet, pred: &QuatSet) -> (r: bool)
    ensures
        r == spec_describes(memory.data@, pred.data@),
{
    let m = &memory.data.data;
    let p = &pred.data.data;
    let mut k: usize = 0;
    while k < m.len() && k < p.len()
        invariant
            m@ == memory.data@,
            p@ == pred.data@,
            k <= m@.len(),
            forall|j: int| 0 <= j < k ==> #[trigger] (m@[j] & p@[j]) == 0,
        decreases m@.len() - k,
    {
        if m[k] & p[k] != 0 {
            assert((m@[k as int] & p@[k as int]) != 0);
            return false;
        }
        k += 1;
    }
    let l2 = m.len();
    if p.len() > l2 {
        let mut j: usize = l2;
        while j < p.len()
            invariant
                p@ == pred.data@,
                l2 == memory.data@.len(),
                l2 <= j <= p@.len(),
                forall|x: int| l2 <= x < j ==> #[trigger] p@[x] == 0,
            decreases p@.len() - j,
        {
            if p[j] != 0 {
                assert(p@[j as int] != 0);
                return false;
            }
            j += 1;
        }
        true
    } else {
        true
    }
}

} // verus!
