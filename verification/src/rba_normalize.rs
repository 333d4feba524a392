//! Normalizing an automaton (taking out its silent rules, then merging and masking) and
//! projecting it on some of its ports. Silent rules can compose into silent rules without
//! end, so the rounds of taking them out are bounded by the caller.
use crate::rba_preprocess::{
    all_have_ports, is_first_silent, merge_all, port_set_contents, settle, without_silent, PortId, PortSet, Rbpa,
    Rule,
};
use vstd::prelude::*;

verus! {

/// The first rule without a port (meaningful when there is one).
pub open spec fn first_silent(rules: Seq<Rule>) -> int {
    choose|k: int| is_first_silent(rules, k)
}

/// The rules after `n` rounds of taking out the first silent rule, the rounds stopping
/// once every rule has a port.
pub open spec fn silent_rounds(rules: Seq<Rule>, n: nat) -> Seq<Rule>
    decreases n,
{
    if n == 0 {
        rules
    } else {
        let prev = silent_rounds(rules, (n - 1) as nat);
        if all_have_ports(prev) {
            prev
        } else {
            without_silent(prev, first_silent(prev))
        }
    }
}

/// Once every rule has a port, further rounds change nothing.
proof fn lemma_rounds_settled(rules: Seq<Rule>, i: nat, n: nat)
    requires
        i <= n,
        all_have_ports(silent_rounds(rules, i)),
    ensures
        silent_rounds(rules, n) == silent_rounds(rules, i),
    decreases n - i,
{
    if n > i {
        lemma_rounds_settled(rules, i, (n - 1) as nat);
    }
}

/// `rules` with every port outside `ports` hidden (made silent).
pub open spec fn hidden(rules: Seq<Rule>, ports: Set<PortId>) -> Seq<Rule> {
    Seq::new(
        rules.len(),
        |k: int|
            Rule {
                guard: rules[k].guard,
                port: match rules[k].port {
                    Some(p) => if ports.contains(p) {
                        Some(p)
                    } else {
                        None
                    },
                    None => None,
                },
                assign: rules[k].assign,
            },
    )
}

impl Rbpa {
    /// Takes out silent rules one round at a time, for at most `max_rounds` rounds (silent
    /// rules can compose into silent rules without end); once no silent rule is left,
    /// merges the rules and masks irrelevant variables to a fixed point. Whether no silent
    /// rule was left.
    pub fn normalize(&mut self, max_rounds: usize) -> (done: bool)
        ensures
            done == all_have_ports(silent_rounds(old(self).rules@, max_rounds as nat)),
            done ==> (final(self).rules@, final(self).mask) == settle(
                merge_all(silent_rounds(old(self).rules@, max_rounds as nat)),
                old(self).mask,
            ),
            !done ==> final(self).rules@ == silent_rounds(old(self).rules@, max_rounds as nat) && final(self).mask
                == old(self).mask,
    {
        let mut i: usize = 0;
        loop
            invariant
                i <= max_rounds,
                self.rules@ == silent_rounds(old(self).rules@, i as nat),
                self.mask == old(self).mask,
            decreases max_rounds - i,
        {
            match self.first_silent_idx() {
                None => {
                    proof {
                        lemma_rounds_settled(old(self).rules@, i as nat, max_rounds as nat);
                    }
                    self.normalize_finish();
                    return true;
                },
                Some(k) => {
                    if i == max_rounds {
                        return false;
                    }
                    let ghost prev = self.rules@;
                    proof {
                        assert(is_first_silent(prev, k as int));
                        assert(is_first_silent(prev, first_silent(prev)));
                    }
                    self.normalize_step();
                    i += 1;
                },
            }
        }
    }
}

/// The automaton seen through the ports of `atomic_ports` only: the other ports are
/// hidden, then the automaton is normalized with at most `max_rounds` rounds of taking out
/// silent rules. Gives the result and whether normalizing finished.
pub fn project(r: Rbpa, atomic_ports: &PortSet, max_rounds: usize) -> (p: (Rbpa, bool))
    ensures
        ({
            let start = hidden(r.rules@, port_set_contents(*atomic_ports));
            &&& p.1 == all_have_ports(silent_rounds(start, max_rounds as nat))
            &&& p.1 ==> (p.0.rules@, p.0.mask) == settle(merge_all(silent_rounds(start, max_rounds as nat)), r.mask)
            &&& !p.1 ==> p.0.rules@ == silent_rounds(start, max_rounds as nat) && p.0.mask == r.mask
        }),
{
    let mut r = r;
    let ghost before = r.rules@;
    r.hide_ports(atomic_ports);
    proof {
        assert(r.rules@ =~= hidden(before, port_set_contents(*atomic_ports)));
    }
    let done = r.normalize(max_rounds);
    (r, done)
}

} // verus!
