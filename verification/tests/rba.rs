use reo_rs::rba_pair::{pair_test, PairEnd};
use reo_rs::rba_preprocess::{PortSet, Rbpa, Rule, StateMask, StateSet};
use reo_rs::val::Val::{self, F, T, X};

fn ss(p: [Val; 3]) -> StateSet {
    StateSet { predicate: p }
}

fn wahey_rules() -> Vec<Rule> {
    vec![
        Rule::new(ss([X, X, F]), Some(1), ss([X, X, T])),
        Rule::new(ss([X, F, T]), Some(2), ss([X, T, F])),
        Rule::new(ss([F, T, T]), Some(3), ss([T, F, F])),
        Rule::new(ss([T, T, T]), Some(1), ss([F, F, F])),
    ]
}

fn all_relevant() -> StateMask {
    StateMask::new([true, true, true])
}

#[test]
fn val_specificity() {
    assert_eq!(X.partial_cmp(&T), Some(std::cmp::Ordering::Less));
    assert_eq!(F.partial_cmp(&X), Some(std::cmp::Ordering::Greater));
    assert_eq!(T.partial_cmp(&F), None);
    assert!(T.mismatches(F));
    assert!(!X.mismatches(F));
    assert!(X.generic() && T.specific());
}

#[test]
fn state_set_order() {
    assert_eq!(ss([X, X, X]).partial_cmp(&ss([T, X, X])), Some(std::cmp::Ordering::Less));
    assert_eq!(ss([T, X, F]).partial_cmp(&ss([T, X, F])), Some(std::cmp::Ordering::Equal));
    assert_eq!(ss([T, X, X]).partial_cmp(&ss([F, X, X])), None);
    assert_eq!(ss([T, X, F]).partial_cmp(&ss([X, T, F])), None);
}

#[test]
fn rule_apply() {
    let r = Rule::new(ss([X, X, F]), Some(1), ss([X, X, T]));
    assert_eq!(r.apply(&ss([F, F, F])), Some(ss([F, F, T])));
    assert_eq!(r.apply(&ss([F, F, T])), None);
    // a guard value without an assignment is kept
    let g = Rule::new(ss([T, X, X]), None, ss([X, X, X]));
    assert_eq!(g.assign, ss([T, X, X]));
    assert_eq!(g.apply(&ss([X, F, X])), Some(ss([T, F, X])));
    assert!(g.no_effect());
    assert!(g.is_silent());
}

#[test]
fn rule_compose_examples() {
    // [X->X . F->T] is [F->T]
    let a = Rule::new(ss([X, X, X]), None, ss([X, X, X]));
    let b = Rule::new(ss([F, X, X]), Some(1), ss([T, X, X]));
    let c = a.compose(&b).unwrap();
    assert_eq!((c.guard, c.port, c.assign), (ss([F, X, X]), Some(1), ss([T, X, X])));
    // [F->T . X->X] is [F->T]
    let a = Rule::new(ss([F, X, X]), None, ss([T, X, X]));
    let b = Rule::new(ss([X, X, X]), Some(2), ss([X, X, X]));
    let c = a.compose(&b).unwrap();
    assert_eq!((c.guard, c.port, c.assign), (ss([F, X, X]), Some(2), ss([T, X, X])));
    // [F->F . T->T] cannot be composed
    let a = Rule::new(ss([F, X, X]), None, ss([F, X, X]));
    let b = Rule::new(ss([T, X, X]), None, ss([T, X, X]));
    assert!(a.compose(&b).is_none());
    assert!(!a.can_precede(&b));
}

#[test]
fn rule_merge_examples() {
    // {T->T, F->T} is X->T
    let a = Rule::new(ss([T, X, X]), Some(1), ss([T, X, X]));
    let b = Rule::new(ss([F, X, X]), Some(1), ss([T, X, X]));
    let m = a.try_merge(&b).unwrap();
    assert_eq!((m.guard, m.assign), (ss([X, X, X]), ss([T, X, X])));
    // {X->T, T->T} is X->T
    let a = Rule::new(ss([X, X, X]), Some(1), ss([T, X, X]));
    let b = Rule::new(ss([T, X, X]), Some(1), ss([T, X, X]));
    assert_eq!(a.try_merge(&b), Some(a));
    assert_eq!(b.try_merge(&a), Some(a));
    // guards differing in two places do not merge
    let a = Rule::new(ss([T, T, X]), Some(1), ss([T, T, X]));
    let b = Rule::new(ss([F, F, X]), Some(1), ss([T, T, X]));
    assert!(a.try_merge(&b).is_none());
}

#[test]
fn rbpa_merge_and_mask() {
    let mut r = Rbpa {
        mask: all_relevant(),
        rules: vec![
            Rule::new(ss([T, X, X]), Some(1), ss([T, X, X])),
            Rule::new(ss([F, X, X]), Some(1), ss([T, X, X])),
            Rule::new(ss([T, X, X]), Some(2), ss([F, X, X])),
        ],
    };
    assert!(r.merge_rules());
    assert_eq!(r.rules.len(), 2);
    assert_eq!(r.rules[0].guard, ss([X, X, X]));
    assert!(!r.merge_rules());
    let mut m = Rbpa {
        mask: all_relevant(),
        rules: vec![Rule::new(ss([T, X, X]), Some(1), ss([T, F, X]))],
    };
    assert!(m.mask_irrelevant_vars());
    assert_eq!(m.mask.relevant_index, [true, false, false]);
    assert_eq!(m.rules[0].assign, ss([T, X, X]));
    assert!(!m.mask_irrelevant_vars());
    assert_eq!(m.mask.mask(ss([F, T, T])), ss([F, X, X]));
}

#[test]
fn rbpa_hide_and_normalize() {
    let mut r = Rbpa { mask: all_relevant(), rules: wahey_rules() };
    let mut ports = PortSet::new();
    ports.insert(1);
    r.hide_ports(&ports);
    assert_eq!(r.rules.iter().filter(|x| x.port.is_none()).count(), 2);
    let mut rounds = 0;
    while r.normalize_step() {
        rounds += 1;
        assert!(rounds < 1000);
    }
    r.normalize_finish();
    assert!(r.rules.iter().all(|x| x.port == Some(1)));
    assert!(r.first_silent_idx().is_none());
}

#[test]
fn testy() {
    let org = Rbpa { mask: all_relevant(), rules: wahey_rules() };
    let mut projected = Rbpa { mask: all_relevant(), rules: wahey_rules() };
    let mut ports = PortSet::new();
    ports.insert(1);
    projected.hide_ports(&ports);
    while projected.normalize_step() {}
    projected.normalize_finish();
    let run = pair_test(ss([F, F, F]), &org, &projected, &ports);
    println!("{:?} after {} steps", run.end, run.steps.len());
    assert!(run.steps.len() <= 24);
    for (i, (port, state)) in run.steps.iter().enumerate() {
        let prev = if i == 0 { ss([F, F, F]) } else { run.steps[i - 1].1 };
        assert!(org.rules.iter().any(|r| r.port == *port && r.apply(&prev) == Some(*state)));
    }
}

#[test]
fn pair_test_against_itself() {
    let org = Rbpa { mask: all_relevant(), rules: wahey_rules() };
    let copy = Rbpa { mask: all_relevant(), rules: wahey_rules() };
    let mut ports = PortSet::new();
    ports.insert(1);
    ports.insert(2);
    ports.insert(3);
    let run = pair_test(ss([F, F, F]), &org, &copy, &ports);
    assert_ne!(run.end, PairEnd::FailedToMatch);
    if run.end == PairEnd::Completed {
        assert_eq!(run.steps.len(), 24);
    }
    // every step at a kept port was matched, in order, by a step at the same port
    let kept: Vec<u32> = run
        .steps
        .iter()
        .filter_map(|(p, _)| p.filter(|q| (1..=3).contains(q)))
        .collect();
    let matched: Vec<u32> = run.atomic_steps.iter().map(|(p, _)| *p).collect();
    assert_eq!(kept, matched);
}

#[test]
fn rules_at_different_ports_do_not_merge() {
    let r1 = Rule::new(ss([T, X, X]), Some(1), ss([T, X, X]));
    let r2 = Rule::new(ss([T, X, X]), Some(2), ss([T, X, X]));
    let r3 = Rule::new(ss([F, X, X]), Some(1), ss([T, X, X]));
    assert_eq!(r1.try_merge(&r2), None);
    assert_eq!(r1.try_merge(&r3), Some(Rule::new(ss([X, X, X]), Some(1), ss([T, X, X]))));
    let mut rb = Rbpa { rules: vec![r1, r2], mask: all_relevant() };
    assert!(!rb.merge_rules());
    assert_eq!(rb.rules.len(), 2);
}

#[test]
fn project_through_the_library() {
    let org = Rbpa { mask: all_relevant(), rules: wahey_rules() };
    let mut ports = PortSet::new();
    ports.insert(1);
    // with no round of taking out silent rules, the hidden ports are silent still
    let (p, done) = reo_rs::rba_normalize::project(Rbpa { mask: all_relevant(), rules: wahey_rules() }, &ports, 0);
    assert!(!done);
    assert_eq!(p.rules.len(), 4);
    assert_eq!(p.rules.iter().filter(|x| x.port.is_none()).count(), 2);
    let (p, done) = reo_rs::rba_normalize::project(Rbpa { mask: all_relevant(), rules: wahey_rules() }, &ports, 1000);
    assert!(done);
    assert!(p.rules.iter().all(|x| x.port == Some(1)));
    assert!(p.first_silent_idx().is_none());
    let run = pair_test(ss([F, F, F]), &org, &p, &ports);
    assert!(run.steps.len() <= 24);
}
