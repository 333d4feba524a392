//! Guarded commands over three state variables, from which the reachable states of an
//! automaton are explored.
use vstd::prelude::*;

verus! {

pub type PortId = u32;

/// A state variable's value in a command.
#[derive(Debug, Copy, Clone, Eq, PartialEq, Hash, Structural)]
pub enum Val {
    /// True.
    T,
    /// False.
    F,
    /// Generic: never appears in a state.
    G,
    /// Explicitly unknown: used only in assignments.
    U,
}

/// One value per state variable.
pub type Pred = [Val; 3];

/// A guarded command: from a state, move through `involved` and write `output`.
#[derive(Debug)]
pub struct Gcmd {
    pub input: Pred,
    pub involved: PortId,
    pub output: Pred,
}

/// The value at position `i` after writing `out` over `st`, or `None` on a clash of
/// `T` with `F`.
pub open spec fn applied_val(st: Val, out: Val) -> Option<Val> {
    if (st == Val::T && out == Val::F) || (st == Val::F && out == Val::T) {
        None
    } else if out == Val::G {
        Some(st)
    } else {
        Some(out)
    }
}

/// `pred` with the entries of `pairs` written in, in order.
pub open spec fn written(pred: Seq<Val>, pairs: Seq<(usize, Val)>) -> Seq<Val>
    decreases pairs.len(),
{
    if pairs.len() == 0 {
        pred
    } else {
        written(pred, pairs.drop_last()).update(pairs.last().0 as int, pairs.last().1)
    }
}

fn write_pairs(pairs: &Vec<(usize, Val)>) -> (r: Pred)
    requires
        forall|i: int| 0 <= i < pairs@.len() ==> #[trigger] pairs@[i].0 < 3,
    ensures
        r@ == written(seq![Val::G, Val::G, Val::G], pairs@),
{
    let mut p: Pred = [Val::G, Val::G, Val::G];
    let mut i: usize = 0;
    while i < pairs.len()
        invariant
            i <= pairs@.len(),
            forall|q: int| 0 <= q < pairs@.len() ==> #[trigger] pairs@[q].0 < 3,
            p@ == written(seq![Val::G, Val::G, Val::G], pairs@.take(i as int)),
        decreases pairs@.len() - i,
    {
        let (k, v) = pairs[i];
        p[k] = v;
        proof {
            assert(pairs@.take(i + 1).drop_last() =~= pairs@.take(i as int));
        }
        i += 1;
    }
    proof {
        assert(pairs@.take(pairs@.len() as int) =~= pairs@);
    }
    p
}

impl Gcmd {
    /// The command with the given input and output values (unnamed positions generic).
    pub fn new(input_map: Vec<(usize, Val)>, involved: PortId, output_map: Vec<(usize, Val)>) -> (r: Self)
        requires
            forall|i: int| 0 <= i < input_map@.len() ==> #[trigger] input_map@[i].0 < 3,
            forall|i: int| 0 <= i < output_map@.len() ==> #[trigger] output_map@[i].0 < 3,
        ensures
            r.input@ == written(seq![Val::G, Val::G, Val::G], input_map@),
            r.output@ == written(seq![Val::G, Val::G, Val::G], output_map@),
            r.involved == involved,
    {
        let input = write_pairs(&input_map);
        let output = write_pairs(&output_map);
        Gcmd { input, involved, output }
    }

    /// The state after the command, or `None` when an output value clashes with the
    /// state's (the input is not consulted).
    pub fn apply(&self, state: &Pred) -> (r: Option<Pred>)
        ensures
            (exists|i: int| 0 <= i < 3 && #[trigger] applied_val(state@[i], self.output@[i]) is None) ==> r is None,
            (forall|i: int| 0 <= i < 3 ==> #[trigger] applied_val(state@[i], self.output@[i]) is Some) ==> (r matches Some(
                res,
            ) && forall|i: int| 0 <= i < 3 ==> #[trigger] applied_val(state@[i], self.output@[i]) == Some(res@[i])),
    {
        let mut res = *state;
        let mut i: usize = 0;
        while i < 3
            invariant
                i <= 3,
                forall|j: int| 0 <= j < i ==> #[trigger] applied_val(state@[j], self.output@[j]) == Some(res@[j]),
            decreases 3 - i,
        {
            let s = state[i];
            let o = self.output[i];
            if (s == Val::T && o == Val::F) || (s == Val::F && o == Val::T) {
                proof {
                    assert(applied_val(state@[i as int], self.output@[i as int]) is None);
                }
                return None;
            }
            if o == Val::G {
                res[i] = s;
            } else {
                res[i] = o;
            }
            i += 1;
        }
        Some(res)
    }
}

/// Where a command leads.
#[derive(Debug)]
pub struct Branch {
    pub port: PortId,
    pub dest: Pred,
}

} // verus!
