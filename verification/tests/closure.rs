use reo_rs::rba_preprocess::PortSet;
use reo_rs::sketches::rba_builder::{internal_close, AssignVal, ConcretePred, Gcmd, Rule, SymbolicPred};

const A: usize = 0;
const B: usize = 1;
const C: usize = 2;

fn rule(guard: Vec<(usize, bool)>, port: u32, action: Vec<(usize, AssignVal)>) -> Rule {
    let mut ports = PortSet::new();
    ports.insert(port);
    Rule { guard: ConcretePred::new(guard), ports, action: SymbolicPred::new(action) }
}

fn rules() -> Vec<Rule> {
    vec![
        rule(vec![(A, true), (C, true)], 1, vec![(B, AssignVal::U)]),
        rule(vec![(A, true), (C, false)], 1, vec![(B, AssignVal::T)]),
        rule(vec![(B, false)], 2, vec![(A, AssignVal::T)]),
        rule(vec![(C, true)], 2, vec![(A, AssignVal::T)]),
        rule(vec![(B, true), (C, false)], 2, vec![(A, AssignVal::T)]),
    ]
}

fn state(a: Option<bool>, b: Option<bool>, c: Option<bool>) -> ConcretePred {
    ConcretePred { known: [a, b, c] }
}

#[test]
fn concrete_pred_new_and_compatible() {
    let p = ConcretePred::new(vec![(A, true), (C, false), (A, false)]);
    assert_eq!(p.known, [Some(false), None, Some(false)]);
    assert!(p.compatible(&state(Some(false), Some(true), None)));
    assert!(!p.compatible(&state(None, None, Some(true))));
    assert!(p.compatible(&state(None, None, None)));
}

#[test]
fn symbolic_pred_apply_to() {
    let s = SymbolicPred::new(vec![(A, AssignVal::T), (B, AssignVal::U), (C, AssignVal::F)]);
    assert_eq!(s.values, [AssignVal::T, AssignVal::U, AssignVal::F]);
    let out = s.apply_to(&state(Some(false), Some(true), None));
    assert_eq!(out, state(Some(true), None, Some(false)));
    let keep = SymbolicPred::new(vec![]);
    assert_eq!(keep.apply_to(&state(Some(true), None, Some(false))), state(Some(true), None, Some(false)));
    let g = Gcmd::new(state(Some(true), None, None), 3, keep);
    assert_eq!(g.involved, 3);
}

#[test]
fn closure_from_all_false() {
    let r = internal_close(&state(Some(false), Some(false), Some(false)), &rules());
    assert_eq!(r.len(), 2);
    assert!(r.contains(&state(Some(true), Some(false), Some(false))));
    assert!(r.contains(&state(Some(true), Some(true), Some(false))));
}

#[test]
fn closure_can_return_to_the_start() {
    let start = state(Some(true), Some(false), Some(true));
    let r = internal_close(&start, &rules());
    assert_eq!(r.len(), 2);
    assert!(r.contains(&start));
    assert!(r.contains(&state(Some(true), None, Some(true))));
}

#[test]
fn closure_without_rules_is_empty() {
    assert!(internal_close(&state(None, None, None), &[]).is_empty());
}
