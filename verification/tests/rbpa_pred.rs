use reo_rs::rbpa::{Rbpa, RbpaRule, StatePred};

fn pred(cells: &[(usize, bool)]) -> StatePred {
    let mut p = StatePred::new();
    for &(k, v) in cells {
        p.insert(k, v);
    }
    p
}

fn rule(port: Option<usize>, guard: &[(usize, bool)], assign: &[(usize, bool)]) -> RbpaRule {
    RbpaRule { port, guard: pred(guard), assign: pred(assign) }
}

fn cells(p: &StatePred) -> Vec<(usize, bool)> {
    let mut keys = p.keys();
    keys.sort();
    keys.into_iter().map(|k| (k, p.get(k).unwrap())).collect()
}

#[test]
fn normalize_drops_repeated_values() {
    let mut r = rule(Some(1), &[(0, true), (1, false)], &[(0, true), (1, true)]);
    r.normalize();
    assert_eq!(cells(&r.assign), vec![(1, true)]);
    assert!(r.has_effect());
}

#[test]
fn fuse_cases() {
    // guards split on cell 0, and both rules leave the same values: the guard loses cell 0
    let a = rule(Some(1), &[(0, true), (1, true)], &[(0, false)]);
    let b = rule(Some(1), &[(0, false), (1, true)], &[(0, false)]);
    let f = a.fuse(&b).unwrap();
    assert_eq!(cells(&f.guard), vec![(1, true)]);
    assert_eq!(cells(&f.assign), vec![(0, false)]);
    // a split on a cell whose values the rules keep does not fuse
    let c = rule(Some(1), &[(0, true)], &[]);
    let d = rule(Some(1), &[(0, false)], &[]);
    assert!(c.fuse(&d).is_none());
    // different ports never fuse
    let e = rule(Some(2), &[(0, false), (1, true)], &[(0, false)]);
    assert!(a.fuse(&e).is_none());
    // nested guards leaving the same values: the more general guard wins
    let g = rule(Some(1), &[(1, true)], &[(0, false)]);
    let f = a.fuse(&g).unwrap();
    assert_eq!(cells(&f.guard), vec![(1, true)]);
    assert_eq!(cells(&f.assign), vec![(0, false)]);
    // nested guards leaving different values do not fuse
    let h = rule(Some(1), &[(1, true)], &[]);
    assert!(a.fuse(&h).is_none());
}

#[test]
fn compose_and_constrain() {
    let s = rule(None, &[(0, true)], &[(0, false)]);
    let t = rule(Some(3), &[(0, false), (1, true)], &[(1, false)]);
    let c = s.compose(&t).unwrap();
    assert_eq!(c.port, Some(3));
    assert_eq!(cells(&c.guard), vec![(0, true), (1, true)]);
    // the second rule tests cell 0 without setting it, so the assignment keeps only cell 1
    assert_eq!(cells(&c.assign), vec![(1, false)]);
    let u = rule(Some(3), &[(0, true)], &[]);
    assert!(s.compose(&u).is_none());
    let mut g = pred(&[(1, true)]);
    assert_eq!(s.constrain_guard(&mut g), Ok(()));
    assert_eq!(cells(&g), vec![(0, true), (1, true)]);
    let mut clash = pred(&[(0, false)]);
    assert_eq!(s.constrain_guard(&mut clash), Err(0));
    assert!(s.is_mutex_with(&t));
    assert!(!u.is_mutex_with(&rule(None, &[(1, false)], &[])));
}

#[test]
fn rbpa_removes_silent_rules() {
    let mut r = Rbpa {
        rules: vec![
            rule(None, &[(0, true)], &[(0, false)]),
            rule(Some(1), &[(0, false)], &[(0, true)]),
        ],
    };
    while r.normalize_step() {}
    r.dedup_rules();
    assert!(r.rules.iter().all(|x| x.port.is_some()));
    assert!(!r.rules.is_empty());
}

fn act(putter: usize, getters: &[usize]) -> reo_rs::proto::nu_def::ActionDef {
    reo_rs::proto::nu_def::ActionDef { putter, getters: getters.to_vec() }
}

fn ports(ids: &[usize]) -> reo_rs::rbpa::LocSet {
    let mut s = reo_rs::rbpa::LocSet::new();
    for &i in ids {
        s.insert(i);
    }
    s
}

#[test]
fn loc_set_membership() {
    let s = ports(&[1, 4]);
    assert!(s.contains(1));
    assert!(s.contains(4));
    assert!(!s.contains(2));
}

#[test]
fn build_rule_from_actions() {
    // ports 0 and 1, memory cell 2: port 0 puts into cell 2
    let r = reo_rs::rbpa::build_rbpa_rule(&vec![act(0, &[2])], 2, &ports(&[0, 1])).unwrap();
    assert_eq!(r.port, Some(0));
    assert_eq!(cells(&r.guard), vec![(2, false)]);
    assert_eq!(cells(&r.assign), vec![(2, true)]);
    // cell 2 is emptied into port 1
    let r = reo_rs::rbpa::build_rbpa_rule(&vec![act(2, &[1])], 2, &ports(&[0, 1])).unwrap();
    assert_eq!(r.port, Some(1));
    assert_eq!(cells(&r.guard), vec![(2, true)]);
    assert_eq!(cells(&r.assign), vec![(2, false)]);
    // a port outside the set is not the rule's port
    let r = reo_rs::rbpa::build_rbpa_rule(&vec![act(0, &[2])], 2, &ports(&[1])).unwrap();
    assert_eq!(r.port, None);
}

#[test]
fn build_rule_refuses_two_ports() {
    let r = reo_rs::rbpa::build_rbpa_rule(&vec![act(0, &[1])], 2, &ports(&[0, 1]));
    assert_eq!(r.err(), Some((0, 1)));
}

#[test]
fn new_rbpa_collects_distinct_rules() {
    let defs = vec![vec![act(0, &[2])], vec![act(2, &[1])], vec![act(0, &[2])]];
    let rb = reo_rs::rbpa::new_rbpa(&defs, 2, &ports(&[0, 1])).unwrap();
    assert_eq!(rb.rules.len(), 2);
    assert_eq!(rb.rules[0].port, Some(0));
    assert_eq!(rb.rules[1].port, Some(1));
}

#[test]
fn new_rbpa_reports_synchronous_firing() {
    let defs = vec![vec![act(0, &[2])], vec![act(0, &[1])]];
    match reo_rs::rbpa::new_rbpa(&defs, 2, &ports(&[0, 1])) {
        Err(reo_rs::rbpa::RbpaBuildErr::SynchronousFiring { loc_ids, rule_id }) => {
            assert_eq!(loc_ids, [0, 1]);
            assert_eq!(rule_id, 1);
        }
        Ok(_) => panic!("expected an error"),
    }
}

#[test]
fn bounded_normalize_reports_whether_it_finished() {
    let make = || Rbpa {
        rules: vec![
            rule(None, &[(0, true)], &[(0, false)]),
            rule(Some(1), &[(0, false)], &[(0, true)]),
        ],
    };
    // no round allowed: nothing changes and a silent rule is left
    let mut r = make();
    assert!(!r.normalize(0));
    assert_eq!(r.rules.len(), 2);
    assert_eq!(r.first_silent(), Some(0));
    // enough rounds: no silent rule is left
    let mut r = make();
    assert!(r.normalize(10));
    assert_eq!(r.first_silent(), None);
    assert!(r.rules.iter().all(|x| x.port.is_some()));
    assert!(!r.rules.is_empty());
}
