use reo_rs::proto::collections::LocKindMap;
use reo_rs::proto::definition::{
    ActionDef, BehaviourDef, Formula, LocKind, PortInfo, PortRole, ProtoBuildErr, RuleDef, TypeKey,
    TypelessProtoDef,
};
use reo_rs::proto::reflection::TypeInfo;
use reo_rs::proto::runtime::{ClaimResult, ProtoCore};
use reo_rs::proto::traits::{MemFillPromise, MemFillPromiseFulfilled, Proto};
use reo_rs::LocId;

const U32_KEY: TypeKey = 32;
const U16_KEY: TypeKey = 16;
const F64_KEY: TypeKey = 64;

fn rule(guard: Formula, moves: Vec<(LocId, LocId)>) -> RuleDef {
    RuleDef {
        guard,
        actions: moves
            .into_iter()
            .map(|(putter, getter)| ActionDef { putter, getters: vec![getter] })
            .collect(),
    }
}

struct AlternatorProto;

impl Proto for AlternatorProto {
    type MemValue = u32;
    fn spec_def() -> TypelessProtoDef {
        Self::typeless_proto_def()
    }
    fn spec_loc_type(loc_id: LocId) -> Option<TypeInfo> {
        Self::loc_type(loc_id)
    }
    fn spec_fills(_loc_id: LocId, _type_key: TypeKey) -> bool {
        false
    }
    fn typeless_proto_def() -> TypelessProtoDef {
        let mut loc_kinds = LocKindMap::new();
        loc_kinds.insert(0, LocKind::PortPutter);
        loc_kinds.insert(1, LocKind::PortPutter);
        loc_kinds.insert(2, LocKind::PortGetter);
        loc_kinds.insert(3, LocKind::MemUninitialized);
        TypelessProtoDef {
            behaviour: BehaviourDef {
                rules: vec![
                    rule(Formula::True, vec![(0, 2), (1, 3)]),
                    rule(Formula::True, vec![(3, 2)]),
                ],
            },
            loc_kinds,
        }
    }
    fn fill_memory(_loc_id: LocId, _p: MemFillPromise) -> Option<MemFillPromiseFulfilled<u32>> {
        None
    }
    fn loc_type(loc_id: LocId) -> Option<TypeInfo> {
        match loc_id {
            0..=3 => Some(TypeInfo::new(U32_KEY)),
            _ => None,
        }
    }
}

fn instantiate() -> Result<ProtoCore, ProtoBuildErr> {
    AlternatorProto::try_instantiate().map(|(core, _)| core)
}

#[test]
fn proto_alt_u32_build() {
    let _ = instantiate().unwrap();
}

#[test]
fn proto_alt_u32_instantiate_and_claim() {
    let mut p = instantiate().unwrap();
    assert_eq!(p.claim(0, U32_KEY), ClaimResult::GotPutter(0));
    assert_eq!(p.claim(1, U32_KEY), ClaimResult::GotPutter(1));
    assert_eq!(p.claim(2, U32_KEY), ClaimResult::GotGetter(2));
}

#[test]
fn proto_alt_u32_build_repeatedly() {
    let mut p = instantiate().unwrap();
    let putter = PortInfo { role: PortRole::Putter, type_key: U32_KEY };
    for _ in 0..3 {
        assert_eq!(p.claim(0, U32_KEY), ClaimResult::GotPutter(0));
        p.unclaim(0, putter);
    }
}

#[test]
fn proto_alt_u32_claim() {
    let mut p = instantiate().unwrap();
    for i in 0..3 {
        assert!(p.claim(i, U16_KEY).claimed_nothing());
        assert!(p.claim(i, U16_KEY).claimed_nothing());
    }
    assert_eq!(p.claim(0, U32_KEY), ClaimResult::GotPutter(0));
    assert_eq!(p.claim(1, U32_KEY), ClaimResult::GotPutter(1));
    assert_eq!(p.claim(2, U32_KEY), ClaimResult::GotGetter(2));
    for i in 0..10 {
        assert!(p.claim(i, U32_KEY).claimed_nothing());
        assert!(p.claim(i, U32_KEY).claimed_nothing());
    }
}

struct SyncProto;

impl Proto for SyncProto {
    type MemValue = u32;
    fn spec_def() -> TypelessProtoDef {
        Self::typeless_proto_def()
    }
    fn spec_loc_type(loc_id: LocId) -> Option<TypeInfo> {
        Self::loc_type(loc_id)
    }
    fn spec_fills(_loc_id: LocId, _type_key: TypeKey) -> bool {
        false
    }
    fn typeless_proto_def() -> TypelessProtoDef {
        let mut loc_kinds = LocKindMap::new();
        loc_kinds.insert(0, LocKind::PortPutter);
        loc_kinds.insert(1, LocKind::PortGetter);
        TypelessProtoDef { behaviour: BehaviourDef { rules: vec![rule(Formula::True, vec![(0, 1)])] }, loc_kinds }
    }
    fn fill_memory(_loc_id: LocId, _p: MemFillPromise) -> Option<MemFillPromiseFulfilled<u32>> {
        None
    }
    fn loc_type(loc_id: LocId) -> Option<TypeInfo> {
        match loc_id {
            0..=1 => Some(TypeInfo::new(F64_KEY)),
            _ => None,
        }
    }
}

#[test]
fn proto_sync_f64_create() {
    let _p = SyncProto::try_instantiate().unwrap().0;
}

#[test]
fn proto_sync_f64_instantiate_and_claim() {
    let mut p = SyncProto::try_instantiate().unwrap().0;
    assert_eq!(p.claim(0, F64_KEY), ClaimResult::GotPutter(0));
    assert_eq!(p.claim(1, F64_KEY), ClaimResult::GotGetter(1));
}
