//! Normalizing an automaton over partial memory states: taking out its silent rules, a
//! bounded number of rounds at a time, then dropping repeated rules.
use crate::rbpa::{first_occurrences, first_silent_from, normalize_round, views, Rbpa, RuleView};
use vstd::prelude::*;

verus! {

/// The rules after `n` rounds of taking out the first silent rule, the rounds stopping
/// once none is left.
pub open spec fn pred_rounds(v: Seq<RuleView>, n: nat) -> Seq<RuleView>
    decreases n,
{
    if n == 0 {
        v
    } else {
        let prev = pred_rounds(v, (n - 1) as nat);
        match first_silent_from(prev, 0) {
            None => prev,
            Some(i) => normalize_round(prev, i),
        }
    }
}

/// Once no silent rule is left, further rounds change nothing.
proof fn lemma_pred_rounds_settled(v: Seq<RuleView>, i: nat, n: nat)
    requires
        i <= n,
        first_silent_from(pred_rounds(v, i), 0) is None,
    ensures
        pred_rounds(v, n) == pred_rounds(v, i),
    decreases n - i,
{
    if n > i {
        lemma_pred_rounds_settled(v, i, (n - 1) as nat);
    }
}

impl Rbpa {
    /// The index of the first rule without a port, if any.
    pub fn first_silent(&self) -> (r: Option<usize>)
        ensures
            match first_silent_from(views(self.rules@), 0) {
                None => r is None,
                Some(i) => r == Some(i as usize),
            },
    {
        let ghost v = views(self.rules@);
        let n = self.rules.len();
        let mut i: usize = 0;
        while i < n && self.rules[i].port.is_some()
            invariant
                n == self.rules@.len(),
                v == views(self.rules@),
                i <= n,
                first_silent_from(v, 0) == first_silent_from(v, i as int),
            decreases n - i,
        {
            i += 1;
        }
        if i == n {
            None
        } else {
            Some(i)
        }
    }

    /// Takes out silent rules one round at a time (see [`Rbpa::normalize_step`]), for at
    /// most `max_rounds` rounds, since silent rules can compose into silent rules without
    /// end; once no silent rule is left, keeps only the first occurrence of every rule.
    /// Whether no silent rule was left.
    pub fn normalize(&mut self, max_rounds: usize) -> (done: bool)
        ensures
            done == (first_silent_from(pred_rounds(views(old(self).rules@), max_rounds as nat), 0) is None),
            done ==> views(final(self).rules@) == first_occurrences(
                pred_rounds(views(old(self).rules@), max_rounds as nat),
            ),
            !done ==> views(final(self).rules@) == pred_rounds(views(old(self).rules@), max_rounds as nat),
    {
        let mut i: usize = 0;
        loop
            invariant
                i <= max_rounds,
                views(self.rules@) == pred_rounds(views(old(self).rules@), i as nat),
            decreases max_rounds - i,
        {
            match self.first_silent() {
                None => {
                    proof {
                        lemma_pred_rounds_settled(views(old(self).rules@), i as nat, max_rounds as nat);
                    }
                    self.dedup_rules();
                    return true;
                },
                Some(_) => {
                    if i == max_rounds {
                        return false;
                    }
                    self.normalize_step();
                    i += 1;
                },
            }
        }
    }
}

} // verus!
