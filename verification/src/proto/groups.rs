//! Errors of grouping ports.
use crate::LocId;
use vstd::prelude::*;

verus! {

/// A port of the group was claimed already.
#[derive(Debug, Copy, Clone)]
pub enum PortGroupError {
    PortAlreadyClaimed(LocId),
}

/// Why a port could not join a group.
#[derive(Debug, Copy, Clone)]
pub enum GroupAddError {
    DifferentProtoInstance,
    GotGetterExpectedPutter,
    GotPutterExpectedGetter,
    NotUnclaimed,
    TypeMismatch,
}

} // verus!

use crate::bits::{lemma_wbits, wbits, word_bit};
use crate::bitset::{seq_has, set_chunks, BitSet};
use crate::proto::runtime::ProtoCore;

verus! {

/// The shortest of three lengths.
pub open spec fn min3(a: nat, b: nat, c: nat) -> nat {
    if a <= b && a <= c {
        a
    } else if b <= c {
        b
    } else {
        c
    }
}

/// `s` with its first `m` chunks or-ed with those of `other`.
pub open spec fn or_prefix(s: Seq<usize>, other: Seq<usize>, m: nat) -> Seq<usize> {
    Seq::new(s.len(), |k: int| if k < m { s[k] | other[k] } else { s[k] })
}

/// `s` with the bits of `other` cleared from its first `m` chunks.
pub open spec fn clear_prefix(s: Seq<usize>, other: Seq<usize>, m: nat) -> Seq<usize> {
    Seq::new(s.len(), |k: int| if k < m { s[k] & !other[k] } else { s[k] })
}

/// Flagging a group and then committing it leaves readiness as it was before the group
/// was flagged (no member having been ready).
pub proof fn law_flag_then_commit_restores(ready: Seq<usize>, members: Seq<usize>, m: nat)
    requires
        m <= ready.len(),
        m <= members.len(),
        forall|k: int| 0 <= k < m ==> #[trigger] (ready[k] & members[k]) == 0,
    ensures
        clear_prefix(or_prefix(ready, members, m), members, m) == ready,
{
    assert forall|k: int| 0 <= k < m implies #[trigger] ((ready[k] | members[k]) & !members[k]) == ready[k] by {
        let a = ready[k];
        let b = members[k];
        assert(a & b == 0 ==> (a | b) & !b == a) by (bit_vector);
    }
    assert(clear_prefix(or_prefix(ready, members, m), members, m) =~= ready);
}

proof fn lemma_release_chunk(t: usize, b: usize, j: usize)
    requires
        t & b == b,
        j < usize::BITS,
        (b >> j) & 1usize == 1usize,
    ensures
        ((t & !b) | (1usize << j)) | b == t,
        (t & !b) | b == t,
{
    assert(((t & !b) | (1usize << j)) | b == t && (t & !b) | b == t) by (bit_vector)
        requires
            t & b == b,
            j < usize::BITS,
            (b >> j) & 1usize == 1usize,
    ;
}

/// Committing a group to its member `id` and then releasing the group gives back the
/// readiness and tentativeness the group had while it waited (every member ready and
/// tentative).
pub proof fn law_commit_then_release_restores(
    ready: Seq<usize>,
    tentative: Seq<usize>,
    members: Seq<usize>,
    m: nat,
    id: usize,
)
    requires
        m <= ready.len(),
        m <= tentative.len(),
        m <= members.len(),
        forall|k: int| 0 <= k < m ==> #[trigger] (ready[k] & members[k]) == members[k],
        forall|k: int| 0 <= k < m ==> #[trigger] (tentative[k] & members[k]) == members[k],
        seq_has(members, id as int),
        (id as int) / wbits() < m,
    ensures
        or_prefix(clear_prefix(ready, members, m), members, m) == ready,
        or_prefix(set_chunks(clear_prefix(tentative, members, m), id, true), members, m) == tentative,
{
    lemma_wbits();
    let c = id as int / wbits();
    let j = (id as int % wbits()) as usize;
    assert forall|k: int| 0 <= k < m implies #[trigger] ((ready[k] & !members[k]) | members[k]) == ready[k] by {
        let a = ready[k];
        let b = members[k];
        assert(a & b == b ==> (a & !b) | b == a) by (bit_vector);
    }
    assert(or_prefix(clear_prefix(ready, members, m), members, m) =~= ready);
    let cl = clear_prefix(tentative, members, m);
    let st = set_chunks(cl, id, true);
    assert(st == cl.update(c, cl[c] | (1usize << j)));
    assert forall|k: int| 0 <= k < tentative.len() implies #[trigger] or_prefix(st, members, m)[k] == tentative[k] by {
        if k < m {
            let t = tentative[k];
            let b = members[k];
            if k == c {
                lemma_release_chunk(t, b, j);
            } else {
                assert(t & b == b ==> (t & !b) | b == t) by (bit_vector);
            }
        }
    }
    assert(or_prefix(st, members, m) =~= tentative);
}

impl ProtoCore {
    /// The chunks a group's flags span: as far as readiness, tentativeness and the
    /// members all reach.
    pub open spec fn group_span(&self, members: &BitSet) -> nat {
        min3(self.ready@.len(), self.ready_tentative@.len(), members@.len())
    }

    /// Marks every member of a port group ready and tentative, so that the protocol may
    /// commit to whichever of them a rule needs first. No member may be ready already.
    pub fn flag_group(&mut self, members: &BitSet)
        requires
            old(self).wf(),
            forall|k: int| 0 <= k < old(self).group_span(members) ==> #[trigger] (old(self).ready@[k] & members@[k]) == 0,
        ensures
            final(self).wf(),
            final(self).ready@ == or_prefix(old(self).ready@, members@, old(self).group_span(members)),
            final(self).ready_tentative@ == or_prefix(
                old(self).ready_tentative@,
                members@,
                old(self).group_span(members),
            ),
            final(self).rules == old(self).rules,
            final(self).spaces == old(self).spaces,
            final(self).memory_bits == old(self).memory_bits,
            final(self).commitment == old(self).commitment,
            final(self).awaiting_states == old(self).awaiting_states,
            final(self).unclaimed_ports == old(self).unclaimed_ports,
    {
        let m = if self.ready.data.len() <= self.ready_tentative.data.len() && self.ready.data.len() <= members.data.len() {
            self.ready.data.len()
        } else if self.ready_tentative.data.len() <= members.data.len() {
            self.ready_tentative.data.len()
        } else {
            members.data.len()
        };
        let ghost r0 = self.ready@;
        let ghost t0 = self.ready_tentative@;
        let mut k: usize = 0;
        while k < m
            invariant
                m == min3(r0.len(), t0.len(), members@.len()),
                k <= m,
                self.ready@.len() == r0.len(),
                self.ready_tentative@.len() == t0.len(),
                forall|j: int| 0 <= j < r0.len() ==> #[trigger] self.ready@[j] == (if j < k { r0[j] | members@[j] } else { r0[j] }),
                forall|j: int| 0 <= j < t0.len() ==> #[trigger] self.ready_tentative@[j] == (if j < k {
                    t0[j] | members@[j]
                } else {
                    t0[j]
                }),
                self.rules == old(self).rules,
                self.spaces == old(self).spaces,
                self.memory_bits == old(self).memory_bits,
                self.commitment == old(self).commitment,
                self.awaiting_states == old(self).awaiting_states,
                self.unclaimed_ports == old(self).unclaimed_ports,
                r0 == old(self).ready@,
                t0 == old(self).ready_tentative@,
            decreases m - k,
        {
            let mem = members.data[k];
            let r = self.ready.data[k];
            self.ready.data[k] = r | mem;
            let t = self.ready_tentative.data[k];
            self.ready_tentative.data[k] = t | mem;
            k += 1;
        }
        assert(self.ready@ =~= or_prefix(r0, members@, m as nat));
        assert(self.ready_tentative@ =~= or_prefix(t0, members@, m as nat));
    }

    /// Releases a port group after the port it committed to has acted: every member is
    /// marked ready and tentative again, whatever it was before.
    pub fn release_group(&mut self, members: &BitSet)
        requires
            old(self).wf(),
        ensures
            final(self).wf(),
            final(self).ready@ == or_prefix(old(self).ready@, members@, old(self).group_span(members)),
            final(self).ready_tentative@ == or_prefix(
                old(self).ready_tentative@,
                members@,
                old(self).group_span(members),
            ),
            final(self).rules == old(self).rules,
            final(self).spaces == old(self).spaces,
            final(self).memory_bits == old(self).memory_bits,
            final(self).commitment == old(self).commitment,
            final(self).awaiting_states == old(self).awaiting_states,
            final(self).unclaimed_ports == old(self).unclaimed_ports,
    {
        let m = if self.ready.data.len() <= self.ready_tentative.data.len() && self.ready.data.len() <= members.data.len() {
            self.ready.data.len()
        } else if self.ready_tentative.data.len() <= members.data.len() {
            self.ready_tentative.data.len()
        } else {
            members.data.len()
        };
        let ghost r0 = self.ready@;
        let ghost t0 = self.ready_tentative@;
        let mut k: usize = 0;
        while k < m
            invariant
                m == min3(r0.len(), t0.len(), members@.len()),
                k <= m,
                self.ready@.len() == r0.len(),
                self.ready_tentative@.len() == t0.len(),
                forall|j: int| 0 <= j < r0.len() ==> #[trigger] self.ready@[j] == (if j < k { r0[j] | members@[j] } else { r0[j] }),
                forall|j: int| 0 <= j < t0.len() ==> #[trigger] self.ready_tentative@[j] == (if j < k {
                    t0[j] | members@[j]
                } else {
                    t0[j]
                }),
                self.rules == old(self).rules,
                self.spaces == old(self).spaces,
                self.memory_bits == old(self).memory_bits,
                self.commitment == old(self).commitment,
                self.awaiting_states == old(self).awaiting_states,
                self.unclaimed_ports == old(self).unclaimed_ports,
                r0 == old(self).ready@,
                t0 == old(self).ready_tentative@,
            decreases m - k,
        {
            let mem = members.data[k];
            let r = self.ready.data[k];
            self.ready.data[k] = r | mem;
            let t = self.ready_tentative.data[k];
            self.ready_tentative.data[k] = t | mem;
            k += 1;
        }
        assert(self.ready@ =~= or_prefix(r0, members@, m as nat));
        assert(self.ready_tentative@ =~= or_prefix(t0, members@, m as nat));
    }

    /// The protocol committed to port `id` of a port group: every member stops being
    /// ready and tentative, then `id` alone is marked tentative again. Every member must
    /// be ready.
    pub fn commit_group(&mut self, members: &BitSet, id: usize)
        requires
            old(self).wf(),
            forall|k: int|
                0 <= k < old(self).group_span(members) ==> #[trigger] (old(self).ready@[k] & members@[k]) == members@[k],
        ensures
            final(self).wf(),
            final(self).ready@ == clear_prefix(old(self).ready@, members@, old(self).group_span(members)),
            final(self).ready_tentative@ == set_chunks(
                clear_prefix(old(self).ready_tentative@, members@, old(self).group_span(members)),
                id,
                true,
            ),
            final(self).rules == old(self).rules,
            final(self).spaces == old(self).spaces,
            final(self).memory_bits == old(self).memory_bits,
            final(self).commitment == old(self).commitment,
            final(self).awaiting_states == old(self).awaiting_states,
            final(self).unclaimed_ports == old(self).unclaimed_ports,
    {
        let m = if self.ready.data.len() <= self.ready_tentative.data.len() && self.ready.data.len() <= members.data.len() {
            self.ready.data.len()
        } else if self.ready_tentative.data.len() <= members.data.len() {
            self.ready_tentative.data.len()
        } else {
            members.data.len()
        };
        let ghost r0 = self.ready@;
        let ghost t0 = self.ready_tentative@;
        let mut k: usize = 0;
        while k < m
            invariant
                m == min3(r0.len(), t0.len(), members@.len()),
                k <= m,
                self.ready@.len() == r0.len(),
                self.ready_tentative@.len() == t0.len(),
                forall|j: int| 0 <= j < r0.len() ==> #[trigger] self.ready@[j] == (if j < k { r0[j] & !members@[j] } else { r0[j] }),
                forall|j: int| 0 <= j < t0.len() ==> #[trigger] self.ready_tentative@[j] == (if j < k {
                    t0[j] & !members@[j]
                } else {
                    t0[j]
                }),
                self.rules == old(self).rules,
                self.spaces == old(self).spaces,
                self.memory_bits == old(self).memory_bits,
                self.commitment == old(self).commitment,
                self.awaiting_states == old(self).awaiting_states,
                self.unclaimed_ports == old(self).unclaimed_ports,
                r0 == old(self).ready@,
                t0 == old(self).ready_tentative@,
            decreases m - k,
        {
            let mem = members.data[k];
            let r = self.ready.data[k];
            self.ready.data[k] = r & !mem;
            let t = self.ready_tentative.data[k];
            self.ready_tentative.data[k] = t & !mem;
            k += 1;
        }
        assert(self.ready@ =~= clear_prefix(r0, members@, m as nat));
        assert(self.ready_tentative@ =~= clear_prefix(t0, members@, m as nat));
        self.ready_tentative.set_to(id, true);
    }
}

} // verus!
