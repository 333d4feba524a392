use reo_rs::primitives::{enter, ByteSet, IdType, ProtBuilder, RuleType};

#[test]
fn byteset_bytes() {
    let mut b = ByteSet::with_len(10);
    assert_eq!(b.data.len(), 2);
    assert_eq!(b.len_bytes(), 16);
    b.set_byte(9, ByteSet::GETTY);
    b.set_byte(3, 0xab);
    assert_eq!(b.get_byte(9), 2);
    assert_eq!(b.get_byte(3), 0xab);
    assert_eq!(b.get_byte(4), 0);
    assert_eq!(b.data[0], 0xab << 24);
    let old = b.drain_byte(3, 0x0f);
    assert_eq!(old, 0xab);
    assert_eq!(b.get_byte(3), 0xa0);
}

#[test]
fn byteset_minimize_and_superset() {
    let b = ByteSet { data: vec![1, 0, 0] }.minimize();
    assert_eq!(b.data, vec![1]);
    let a = ByteSet { data: vec![0b11, 0] };
    assert!(a.is_superset(&b));
    assert!(!b.is_superset(&ByteSet { data: vec![0b10] }));
    assert!(!b.is_superset(&ByteSet { data: vec![1, 1] }));
    assert!(b.is_superset(&ByteSet { data: vec![1, 0] }));
}

#[test]
fn byteset_non_null_windows() {
    // the test for location k looks at the eight bits from bit k % 8 of chunk k / 8
    let b = ByteSet { data: vec![0x100] };
    assert_eq!(b.iter_non_null(), vec![1, 2, 3, 4, 5, 6, 7]);
    let c = ByteSet { data: vec![0, 1] };
    assert_eq!(c.iter_non_null(), vec![8]);
}

#[test]
fn id_and_rule_types() {
    assert!(IdType::Pu.needs_space());
    assert!(IdType::Mem.needs_space());
    assert!(!IdType::Ge.needs_space());
    assert!(RuleType::CloneFromMem.move_possible());
    assert!(!RuleType::CloneFromMem.drains_putter());
    assert!(RuleType::MoveFromMem.drains_putter());
    assert!(RuleType::MoveFromMem.mem_putter());
    assert!(!RuleType::FromPort.mem_putter());
}

#[test]
fn prot_builder_rules() {
    let b = ProtBuilder::new(10)
        .add_rule(false, 0, vec![2, 1, 2], vec![])
        .add_rule(true, 5, vec![3], vec![5, 4]);
    assert_eq!(b.rules.len(), 2);
    let r0 = &b.rules[0];
    assert_eq!(r0.getters, vec![1, 2]);
    assert_eq!(r0.getter_count, 2);
    assert_eq!(r0.rule_type, RuleType::FromPort);
    // putter 0 asks PUTTY, getters 1 and 2 ask GETTY: bytes 1, 2, 2
    assert_eq!(r0.guard.data, vec![0x0002_0201]);
    let r1 = &b.rules[1];
    assert_eq!(r1.mem_getters, vec![4, 5]);
    assert_eq!(r1.rule_type, RuleType::CloneFromMem);
    assert_eq!(r1.getter_count, 3);
    assert_eq!(b.max_id_encountered, 5);
    assert!(b.clashes(3, IdType::Mem));
    assert!(!b.clashes(3, IdType::Ge));
    assert!(!b.clashes(9, IdType::Pu));
}

#[test]
fn prot_enter_fires_ready_rules() {
    let b = ProtBuilder::new(10)
        .add_rule(false, 0, vec![1], vec![])
        .add_rule(false, 0, vec![2], vec![]);
    let mut ready = ByteSet::with_len(11);
    ready.set_byte(0, ByteSet::PUTTY);
    ready.set_byte(2, ByteSet::GETTY);
    let msgs = enter(&mut ready, &b.rules);
    // only the second rule's getter is ready
    assert_eq!(msgs, vec![(2, 0), (0, 1)]);
    assert_eq!(ready.get_byte(0), 0);
    assert_eq!(ready.get_byte(2), 0);
    // nothing can fire any more
    assert!(enter(&mut ready, &b.rules).is_empty());
}
