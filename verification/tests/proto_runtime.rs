use reo_rs::proto::collections::LocKindMap;
use reo_rs::proto::definition::{
    ActionDef, BehaviourDef, Formula, LocKind, PortInfo, PortRole, ProtoBuildErr, RuleDef, TypeKey,
    TypelessProtoDef,
};
use reo_rs::proto::messages::{port_handout, DataGetCase, MoveFlags, NOTHING};
use reo_rs::proto::reflection::TypeInfo;
use reo_rs::bitset::BitSet;
use reo_rs::proto::compile::RunRule;
use reo_rs::proto::runtime::{
    assign_memory_bits, is_ready, subtract_readiness, ClaimResult, Effect, ProtoCore, StepOutcome,
};
use reo_rs::proto::traits::{collect_types, MemFillPromise, MemFillPromiseFulfilled, Proto, WrongMemFillType};
use reo_rs::LocId;

const KEY: TypeKey = 7;

fn one_move_rule(guard: Formula, moves: Vec<(LocId, LocId)>) -> RuleDef {
    RuleDef {
        guard,
        actions: moves.into_iter().map(|(putter, getter)| ActionDef { putter, getters: vec![getter] }).collect(),
    }
}

struct Alternator;

impl Proto for Alternator {
    type MemValue = u32;
    fn spec_def() -> TypelessProtoDef {
        Self::typeless_proto_def()
    }
    fn spec_loc_type(loc_id: LocId) -> Option<TypeInfo> {
        Self::loc_type(loc_id)
    }
    fn spec_fills(_loc_id: LocId, _type_key: TypeKey) -> bool {
        false
    }
    fn typeless_proto_def() -> TypelessProtoDef {
        let mut loc_kinds = LocKindMap::new();
        loc_kinds.insert(0, LocKind::PortPutter);
        loc_kinds.insert(1, LocKind::PortPutter);
        loc_kinds.insert(2, LocKind::PortGetter);
        loc_kinds.insert(3, LocKind::MemUninitialized);
        TypelessProtoDef {
            behaviour: BehaviourDef {
                rules: vec![
                    one_move_rule(Formula::True, vec![(0, 2), (1, 3)]),
                    one_move_rule(Formula::True, vec![(3, 2)]),
                ],
            },
            loc_kinds,
        }
    }
    fn fill_memory(_loc_id: LocId, _p: MemFillPromise) -> Option<MemFillPromiseFulfilled<u32>> {
        None
    }
    fn loc_type(loc_id: LocId) -> Option<TypeInfo> {
        if loc_id <= 3 {
            Some(TypeInfo::new(KEY))
        } else {
            None
        }
    }
}

struct Untyped;

impl Proto for Untyped {
    type MemValue = u32;
    fn spec_def() -> TypelessProtoDef {
        Self::typeless_proto_def()
    }
    fn spec_loc_type(loc_id: LocId) -> Option<TypeInfo> {
        Self::loc_type(loc_id)
    }
    fn spec_fills(_loc_id: LocId, _type_key: TypeKey) -> bool {
        false
    }
    fn typeless_proto_def() -> TypelessProtoDef {
        Alternator::typeless_proto_def()
    }
    fn fill_memory(_loc_id: LocId, _p: MemFillPromise) -> Option<MemFillPromiseFulfilled<u32>> {
        None
    }
    fn loc_type(loc_id: LocId) -> Option<TypeInfo> {
        if loc_id == 3 {
            None
        } else {
            Some(TypeInfo::new(KEY))
        }
    }
}

struct BrokenPromise;

impl Proto for BrokenPromise {
    type MemValue = u32;
    fn spec_def() -> TypelessProtoDef {
        Self::typeless_proto_def()
    }
    fn spec_loc_type(loc_id: LocId) -> Option<TypeInfo> {
        Self::loc_type(loc_id)
    }
    fn spec_fills(_loc_id: LocId, _type_key: TypeKey) -> bool {
        false
    }
    fn typeless_proto_def() -> TypelessProtoDef {
        let mut loc_kinds = LocKindMap::new();
        loc_kinds.insert(0, LocKind::PortGetter);
        loc_kinds.insert(1, LocKind::MemInitialized);
        TypelessProtoDef {
            behaviour: BehaviourDef { rules: vec![one_move_rule(Formula::True, vec![(1, 0)])] },
            loc_kinds,
        }
    }
    fn fill_memory(_loc_id: LocId, _p: MemFillPromise) -> Option<MemFillPromiseFulfilled<u32>> {
        None
    }
    fn loc_type(_loc_id: LocId) -> Option<TypeInfo> {
        Some(TypeInfo::new(KEY))
    }
}

#[test]
fn claim_once_and_unclaim() {
    let mut p = Alternator::try_instantiate().unwrap().0;
    assert!(p.well_formed());
    assert_eq!(p.claim(0, KEY + 1), ClaimResult::TypeMismatch);
    assert_eq!(p.claim(0, KEY), ClaimResult::GotPutter(0));
    assert_eq!(p.claim(0, KEY), ClaimResult::NotUnclaimed);
    assert!(p.claim(0, KEY).claimed_nothing());
    p.unclaim(0, PortInfo { role: PortRole::Putter, type_key: KEY });
    assert_eq!(p.claim(0, KEY), ClaimResult::GotPutter(0));
    assert_eq!(p.claim(3, KEY), ClaimResult::NotUnclaimed);
}

#[test]
fn build_errors() {
    match Untyped::try_instantiate() {
        Err(ProtoBuildErr::UnknownType { loc_id }) => assert_eq!(loc_id, 3),
        _ => panic!("expected an unknown type"),
    }
    match BrokenPromise::try_instantiate() {
        Err(ProtoBuildErr::MemoryFillPromiseBroken { loc_id }) => assert_eq!(loc_id, 1),
        _ => panic!("expected a broken promise"),
    }
}

#[test]
fn fill_promise_checks_type() {
    let promise = MemFillPromise { type_key_expected: KEY, loc_id: 4 };
    let kept = promise.fill_memory(TypeInfo::new(KEY), 11u32).unwrap();
    assert_eq!((kept.loc_id, kept.value), (4, 11));
    let promise = MemFillPromise { type_key_expected: KEY, loc_id: 4 };
    match promise.fill_memory(TypeInfo::new(KEY + 1), 11u32) {
        Err(e) => assert_eq!(e, WrongMemFillType { expected_type: KEY }),
        Ok(_) => panic!("wrong type accepted"),
    }
}

fn fired(p: &mut ProtoCore) -> Option<usize> {
    match p.exhaust_step().0 {
        StepOutcome::Fired { rule_id } => Some(rule_id),
        _ => None,
    }
}

#[test]
fn rules_fire_when_ready() {
    let mut p = Alternator::try_instantiate().unwrap().0;
    let (entered, effects) = p.enter(0);
    assert!(entered && effects.is_empty());
    assert!(matches!(p.exhaust_step().0, StepOutcome::Quiet));
    p.enter(1);
    p.enter(2);
    assert_eq!(fired(&mut p), Some(0));
    p.enter(2);
    let (outcome, effects) = p.exhaust_step();
    assert!(matches!(outcome, StepOutcome::Fired { rule_id: 1 }));
    assert!(effects.iter().any(|e| matches!(e, Effect::Act(plan) if plan.putter == 3)));
    assert!(matches!(p.exhaust_step().0, StepOutcome::Quiet));
}

#[test]
fn move_flags_and_messages() {
    let mut f = MoveFlags::new();
    assert!(f.ask_for_move_permission());
    assert!(!f.ask_for_move_permission());
    assert!(f.did_someone_move());
    f.reset(false);
    assert!(!f.did_someone_move());
    assert!(f.ask_for_move_permission());
    assert!(f.did_someone_move());
    assert!(!f.ask_for_move_permission());
    f.reset(true);
    assert!(!f.ask_for_move_permission());
    assert!(!f.did_someone_move());
    f.type_is_copy_i_moved();
    assert!(f.did_someone_move());
    let msg = DataGetCase::AwaitThenMove.include_in_msg(42);
    assert_eq!(msg, (1u64 << 62) | 42);
    assert_eq!(DataGetCase::parse_msg(msg), (DataGetCase::AwaitThenMove, 42));
    assert!(DataGetCase::MoveImmediately.i_move());
    assert!(!DataGetCase::MoveImmediately.mover_must_wait());
    assert!(!DataGetCase::CloneSignalMover.i_move());
}

#[test]
fn group_flag_then_commit() {
    let mut p = Alternator::try_instantiate().unwrap().0;
    let members = reo_rs::bitset::BitSet::from_set_iter(vec![0, 1]);
    let before = p.ready.data.clone();
    // flags reach only as far as the tentative set does, which starts empty
    p.flag_group(&members);
    assert_eq!(p.ready.data, before);
    p.ready_tentative.pad_trailing_zeroes(1);
    p.flag_group(&members);
    assert!(p.ready.test(0) && p.ready.test(1) && !p.ready.test(2));
    assert!(p.ready_tentative.test(0) && p.ready_tentative.test(1));
    let flagged_ready = p.ready.data.clone();
    let flagged_tentative = p.ready_tentative.data.clone();
    p.commit_group(&members, 1);
    assert_eq!(p.ready.data, before);
    assert!(!p.ready_tentative.test(0) && p.ready_tentative.test(1));
    p.release_group(&members);
    assert_eq!(p.ready.data, flagged_ready);
    assert_eq!(p.ready_tentative.data, flagged_tentative);
}

struct RepeatedGetter;

impl Proto for RepeatedGetter {
    type MemValue = u32;
    fn spec_def() -> TypelessProtoDef {
        Self::typeless_proto_def()
    }
    fn spec_loc_type(loc_id: LocId) -> Option<TypeInfo> {
        Self::loc_type(loc_id)
    }
    fn spec_fills(_loc_id: LocId, _type_key: TypeKey) -> bool {
        false
    }
    fn typeless_proto_def() -> TypelessProtoDef {
        let mut loc_kinds = LocKindMap::new();
        loc_kinds.insert(0, LocKind::PortPutter);
        loc_kinds.insert(1, LocKind::PortGetter);
        loc_kinds.insert(2, LocKind::MemUninitialized);
        TypelessProtoDef {
            behaviour: BehaviourDef {
                rules: vec![RuleDef {
                    guard: Formula::True,
                    actions: vec![ActionDef { putter: 0, getters: vec![1, 2, 1, 2] }],
                }],
            },
            loc_kinds,
        }
    }
    fn fill_memory(_loc_id: LocId, _p: MemFillPromise) -> Option<MemFillPromiseFulfilled<u32>> {
        None
    }
    fn loc_type(_loc_id: LocId) -> Option<TypeInfo> {
        Some(TypeInfo::new(KEY))
    }
}

#[test]
fn repeated_getters_count_once() {
    let p = RepeatedGetter::try_instantiate().unwrap().0;
    let a = &p.rules[0].actions[0];
    assert_eq!(a.putter, 0);
    assert_eq!(a.pg.len(), 1);
    assert_eq!(a.pg.get(0), 1);
    assert_eq!(a.mg.len(), 1);
    assert_eq!(a.mg.get(0), 2);
    // the rule needs ready exactly the locations it uses
    let g = &p.rules[0].guard_ready;
    assert!(g.test(0) && g.test(1) && g.test(2) && !g.test(3));
}

fn bits(word: usize) -> BitSet {
    BitSet { data: vec![word] }
}

fn assign_rule(vals: usize, mask: usize) -> RunRule {
    RunRule {
        guard_ready: bits(0),
        guard_full: bits(0),
        guard_pred: Formula::True,
        assign_vals: bits(vals),
        assign_mask: bits(mask),
        actions: vec![],
    }
}

#[test]
fn assignment_sets_and_unsets_under_the_mask() {
    // values 000111 under mask 101010: memory |= 000010, then &= 010111
    let rule = assign_rule(0b000111, 0b101010);
    let mut memory = bits(0b111111);
    assign_memory_bits(&mut memory, &rule);
    assert_eq!(memory.data, vec![0b010111]);
    let mut memory = bits(0);
    assign_memory_bits(&mut memory, &rule);
    assert_eq!(memory.data, vec![0b000010]);
}

#[test]
fn readiness_with_required_fullness() {
    // locations 0 and 1 must be ready; 0 full, 1 empty
    let mut rule = assign_rule(0, 0);
    rule.guard_ready = bits(0b11);
    rule.guard_full = bits(0b01);
    assert!(is_ready(&bits(0b01), &bits(0b11), &rule));
    assert!(!is_ready(&bits(0b11), &bits(0b11), &rule));
    assert!(!is_ready(&bits(0b01), &bits(0b01), &rule));
    assert!(!is_ready(&bits(0b00), &bits(0b11), &rule));
    let mut ready = bits(0b111);
    subtract_readiness(&mut ready, &rule);
    assert_eq!(ready.data, vec![0b100]);
}

#[test]
fn collecting_types_stops_at_the_first_untyped_location() {
    let keys = vec![3, 1, 0];
    let answers = vec![Some(TypeInfo::new(KEY)), Some(TypeInfo::new(KEY + 1)), Some(TypeInfo::new(KEY))];
    let types = collect_types(&keys, &answers, 4).unwrap();
    assert_eq!(types, vec![Some(KEY), Some(KEY + 1), None, Some(KEY), None]);
    let answers = vec![Some(TypeInfo::new(KEY)), None];
    match collect_types(&keys, &answers, 4) {
        Err(ProtoBuildErr::UnknownType { loc_id }) => assert_eq!(loc_id, 1),
        _ => panic!("expected an unknown type"),
    }
}

struct UntypedAndUnfilled;

impl Proto for UntypedAndUnfilled {
    type MemValue = u32;
    fn spec_def() -> TypelessProtoDef {
        Self::typeless_proto_def()
    }
    fn spec_loc_type(loc_id: LocId) -> Option<TypeInfo> {
        Self::loc_type(loc_id)
    }
    fn spec_fills(_loc_id: LocId, _type_key: TypeKey) -> bool {
        false
    }
    fn typeless_proto_def() -> TypelessProtoDef {
        let mut loc_kinds = LocKindMap::new();
        loc_kinds.insert(0, LocKind::PortGetter);
        loc_kinds.insert(1, LocKind::MemInitialized);
        loc_kinds.insert(2, LocKind::PortPutter);
        TypelessProtoDef { behaviour: BehaviourDef { rules: vec![] }, loc_kinds }
    }
    fn fill_memory(_loc_id: LocId, _p: MemFillPromise) -> Option<MemFillPromiseFulfilled<u32>> {
        None
    }
    fn loc_type(loc_id: LocId) -> Option<TypeInfo> {
        if loc_id == 2 {
            None
        } else {
            Some(TypeInfo::new(KEY))
        }
    }
}

#[test]
fn memory_is_filled_before_other_locations_are_typed() {
    // location 2 has no type, but initialized cell 1 is handled first and is not filled
    match UntypedAndUnfilled::try_instantiate() {
        Err(ProtoBuildErr::MemoryFillPromiseBroken { loc_id }) => assert_eq!(loc_id, 1),
        _ => panic!("expected a broken promise"),
    }
}

#[test]
fn port_getters_are_told_who_moves() {
    // getters 5 (wants data), 6 (signal only), 7 (wants data): 5 moves after 7 cloned
    let h = port_handout(2, &vec![(5, true), (6, false), (7, true)], false, true);
    assert_eq!(h.msgs[0], (5, DataGetCase::AwaitThenMove.include_in_msg(2)));
    assert_eq!(h.msgs[1], (6, NOTHING));
    assert_eq!(h.msgs[2], (7, DataGetCase::CloneSignalMover.include_in_msg(2)));
    assert_eq!((h.countdown, h.putter_reply, h.empty_putter, h.mem_gets_clone), (2, None, false, true));
    // a lone data getter moves at once
    let h = port_handout(2, &vec![(6, false), (7, true)], true, false);
    assert_eq!(h.msgs[1], (7, DataGetCase::MoveImmediately.include_in_msg(2)));
    assert_eq!(h.countdown, 1);
    // nobody wants the datum: a port putter is told how many memory cells moved it,
    // a memory putter empties itself
    let h = port_handout(2, &vec![(6, false)], false, true);
    assert_eq!((h.countdown, h.putter_reply, h.empty_putter, h.mem_gets_clone), (0, Some(1), false, false));
    let h = port_handout(2, &vec![], true, false);
    assert_eq!((h.putter_reply, h.empty_putter), (None, true));
}

struct KeptPromise;

impl Proto for KeptPromise {
    type MemValue = u32;
    fn spec_def() -> TypelessProtoDef {
        Self::typeless_proto_def()
    }
    fn spec_loc_type(loc_id: LocId) -> Option<TypeInfo> {
        Self::loc_type(loc_id)
    }
    fn spec_fills(loc_id: LocId, type_key: TypeKey) -> bool {
        loc_id == 1 && type_key == KEY
    }
    fn typeless_proto_def() -> TypelessProtoDef {
        BrokenPromise::typeless_proto_def()
    }
    fn fill_memory(loc_id: LocId, p: MemFillPromise) -> Option<MemFillPromiseFulfilled<u32>> {
        if loc_id == 1 {
            p.fill_memory(TypeInfo::new(KEY), 42).ok()
        } else {
            None
        }
    }
    fn loc_type(_loc_id: LocId) -> Option<TypeInfo> {
        Some(TypeInfo::new(KEY))
    }
}

#[test]
fn kept_fill_promise_builds_with_memory_set() {
    let (p, cells) = KeptPromise::try_instantiate().unwrap();
    // the initial value comes back with the coordinator
    assert_eq!(cells.len(), 1);
    assert_eq!((cells[0].loc_id, cells[0].value), (1, 42));
    assert!(p.well_formed());
    // the initialized cell holds its value from the start
    assert!(p.memory_bits.test(1));
    assert!(!p.memory_bits.test(0));
}

#[test]
fn running_rules_ends_when_none_can_fire() {
    let mut p = Alternator::try_instantiate().unwrap().0;
    // nothing ready: the first step is quiet and nothing changes
    let (outcome, effects, n) = p.run_rules(10);
    assert!(matches!(outcome, StepOutcome::Quiet) && effects.is_empty() && n == 0);
    p.enter(0);
    p.enter(1);
    p.enter(2);
    // rule 0 fires, then rule 1 waits for the getter again
    let (outcome, effects, n) = p.run_rules(10);
    assert!(matches!(outcome, StepOutcome::Quiet));
    assert_eq!(n, 1);
    assert!(effects.iter().any(|e| matches!(e, Effect::Act(plan) if plan.putter == 0)));
    assert!(matches!(p.exhaust_step().0, StepOutcome::Quiet));
    p.enter(2);
    // with a bound of one, the run stops after the one rule it fires
    let (outcome, effects, n) = p.run_rules(1);
    assert!(matches!(outcome, StepOutcome::Fired { rule_id: 1 }));
    assert_eq!(n, 1);
    assert!(effects.iter().any(|e| matches!(e, Effect::Act(plan) if plan.putter == 3)));
}

struct DoubleUse;

impl Proto for DoubleUse {
    type MemValue = u32;
    fn spec_def() -> TypelessProtoDef {
        Self::typeless_proto_def()
    }
    fn spec_loc_type(loc_id: LocId) -> Option<TypeInfo> {
        Self::loc_type(loc_id)
    }
    fn spec_fills(_loc_id: LocId, _type_key: TypeKey) -> bool {
        false
    }
    fn typeless_proto_def() -> TypelessProtoDef {
        let mut loc_kinds = LocKindMap::new();
        loc_kinds.insert(0, LocKind::PortPutter);
        loc_kinds.insert(1, LocKind::PortPutter);
        loc_kinds.insert(2, LocKind::PortGetter);
        loc_kinds.insert(3, LocKind::MemUninitialized);
        TypelessProtoDef {
            behaviour: BehaviourDef {
                rules: vec![
                    // getter 2 is used by both actions
                    one_move_rule(Formula::True, vec![(0, 2), (1, 2)]),
                ],
            },
            loc_kinds,
        }
    }
    fn fill_memory(_loc_id: LocId, _p: MemFillPromise) -> Option<MemFillPromiseFulfilled<u32>> {
        None
    }
    fn loc_type(_loc_id: LocId) -> Option<TypeInfo> {
        Some(TypeInfo::new(KEY))
    }
}

struct MemoryKeepsItsDatum;

impl Proto for MemoryKeepsItsDatum {
    type MemValue = u32;
    fn spec_def() -> TypelessProtoDef {
        Self::typeless_proto_def()
    }
    fn spec_loc_type(loc_id: LocId) -> Option<TypeInfo> {
        Self::loc_type(loc_id)
    }
    fn spec_fills(_loc_id: LocId, _type_key: TypeKey) -> bool {
        false
    }
    fn typeless_proto_def() -> TypelessProtoDef {
        let mut loc_kinds = LocKindMap::new();
        loc_kinds.insert(0, LocKind::PortGetter);
        loc_kinds.insert(1, LocKind::MemUninitialized);
        TypelessProtoDef {
            behaviour: BehaviourDef {
                rules: vec![RuleDef {
                    guard: Formula::True,
                    actions: vec![ActionDef { putter: 1, getters: vec![0, 1] }],
                }],
            },
            loc_kinds,
        }
    }
    fn fill_memory(_loc_id: LocId, _p: MemFillPromise) -> Option<MemFillPromiseFulfilled<u32>> {
        None
    }
    fn loc_type(_loc_id: LocId) -> Option<TypeInfo> {
        Some(TypeInfo::new(KEY))
    }
}

#[test]
fn a_location_used_twice_is_refused() {
    match DoubleUse::try_instantiate() {
        Err(ProtoBuildErr::SynchronousFiring { loc_id }) => assert_eq!(loc_id, 2),
        _ => panic!("expected synchronous firing"),
    }
    // a memory cell may take its own datum back
    assert!(MemoryKeepsItsDatum::try_instantiate().is_ok());
}

struct UntypedCell;

impl Proto for UntypedCell {
    type MemValue = u32;
    fn spec_def() -> TypelessProtoDef {
        Self::typeless_proto_def()
    }
    fn spec_loc_type(loc_id: LocId) -> Option<TypeInfo> {
        Self::loc_type(loc_id)
    }
    fn spec_fills(_loc_id: LocId, _type_key: TypeKey) -> bool {
        true
    }
    fn typeless_proto_def() -> TypelessProtoDef {
        BrokenPromise::typeless_proto_def()
    }
    fn fill_memory(_loc_id: LocId, p: MemFillPromise) -> Option<MemFillPromiseFulfilled<u32>> {
        let key = p.type_key_expected;
        p.fill_memory(TypeInfo::new(key), 0).ok()
    }
    fn loc_type(loc_id: LocId) -> Option<TypeInfo> {
        if loc_id == 1 {
            None
        } else {
            Some(TypeInfo::new(KEY))
        }
    }
}

#[test]
fn an_initialized_cell_without_a_type_is_refused() {
    match UntypedCell::try_instantiate() {
        Err(ProtoBuildErr::UnknownType { loc_id }) => assert_eq!(loc_id, 1),
        _ => panic!("expected an unknown type"),
    }
}
