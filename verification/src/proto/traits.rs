//! The interface a protocol description implements, and its instantiation.
use crate::proto::collections::loc_kind_map_contents;
use crate::proto::compile::{build_core, core_built, fill_ok, rules_fold, type_map, types_cover};
use crate::proto::definition::{LocKind, ProtoBuildErr, TypeKey, TypelessProtoDef};
use crate::proto::reflection::TypeInfo;
use crate::proto::runtime::ProtoCore;
use crate::LocId;
use vstd::prelude::*;

verus! {

/// A sequence read past its end as zeros.
pub trait EndlessIter {
    spec fn spec_at(&self, i: int) -> usize;

    fn endless_at(&self, i: usize) -> (r: usize)
        ensures
            r == self.spec_at(i as int),
    ;
}

impl EndlessIter for Vec<usize> {
    open spec fn spec_at(&self, i: int) -> usize {
        if 0 <= i < self@.len() {
            self@[i]
        } else {
            0
        }
    }

    fn endless_at(&self, i: usize) -> (r: usize) {
        if i < self.len() {
            self[i]
        } else {
            0
        }
    }
}

/// The right to give memory cell `loc_id` (of type `type_key_expected`) its initial value.
pub struct MemFillPromise {
    pub type_key_expected: TypeKey,
    pub loc_id: LocId,
}

/// A memory cell was given an initial value of the wrong type.
#[derive(Debug, Copy, Clone, PartialEq, Eq, Structural)]
pub struct WrongMemFillType {
    pub expected_type: TypeKey,
}

/// Proof that a [`MemFillPromise`] was kept: the memory cell `loc_id` and the initial
/// value it was given.
pub struct MemFillPromiseFulfilled<V> {
    pub loc_id: LocId,
    pub value: V,
}

impl MemFillPromise {
    /// Keeps the promise with `value`, of the type `info` describes; refused (and the value
    /// dropped) when that type is not the one the memory cell holds.
    pub fn fill_memory<V>(self, info: TypeInfo, value: V) -> (r: Result<MemFillPromiseFulfilled<V>, WrongMemFillType>)
        ensures
            info.type_key == self.type_key_expected ==> (r matches Ok(f) && f.loc_id == self.loc_id && f.value
                == value),
            info.type_key != self.type_key_expected ==> (r matches Err(e) && e == (WrongMemFillType {
                expected_type: self.type_key_expected,
            })),
    {
        if info.type_key != self.type_key_expected {
            Err(WrongMemFillType { expected_type: self.type_key_expected })
        } else {
            Ok(MemFillPromiseFulfilled { loc_id: self.loc_id, value })
        }
    }
}

/// A protocol description: its rules and location kinds, the type of each location,
/// and the initial values of its initialized memory cells.
///
/// The spec functions name what the description answers; each method's `ensures` ties
/// its answer to them, so an implementation answers the same way on every call.
pub trait Proto: Sized {
    /// The type of the initial values of the description's memory cells.
    type MemValue;

    /// The definition that [`Proto::typeless_proto_def`] returns.
    spec fn spec_def() -> TypelessProtoDef;

    /// The type that [`Proto::loc_type`] gives location `loc_id`.
    spec fn spec_loc_type(loc_id: LocId) -> Option<TypeInfo>;

    /// Whether [`Proto::fill_memory`] keeps the promise for memory cell `loc_id` of type
    /// `type_key`.
    spec fn spec_fills(loc_id: LocId, type_key: TypeKey) -> bool;

    fn typeless_proto_def() -> (r: TypelessProtoDef)
        ensures
            r == Self::spec_def(),
    ;

    /// Gives memory cell `loc_id` its initial value by keeping `promise`, which names that
    /// cell and the type the description gave it; the kept promise carries the value.
    fn fill_memory(loc_id: LocId, promise: MemFillPromise) -> (r: Option<MemFillPromiseFulfilled<Self::MemValue>>)
        requires
            promise.loc_id == loc_id,
        ensures
            r is Some <==> Self::spec_fills(loc_id, promise.type_key_expected),
            r matches Some(f) ==> f.loc_id == loc_id,
    ;

    fn loc_type(loc_id: LocId) -> (r: Option<TypeInfo>)
        ensures
            r == Self::spec_loc_type(loc_id),
    ;

    /// Builds a coordinator for the protocol. First every initialized memory cell, in the
    /// order of the description's location map, is typed and handed a promise naming it
    /// and its type: the first cell without a type, or left unfilled, is refused. Then every
    /// location is typed, in the map's order ([`collect_types`] turns the answers into the
    /// type table, refusing the first location without a type), and the definition is
    /// compiled by [`build_core`] with those types. A built coordinator starts with no
    /// commitment, no tentative port and no state waiter. Where several locations could be
    /// refused, the one named is the first in the map's order, which this contract leaves
    /// open.
    fn try_instantiate() -> (r: Result<(ProtoCore, Vec<MemFillPromiseFulfilled<Self::MemValue>>), ProtoBuildErr>)
        ensures
            ({
                let kinds = loc_kind_map_contents(Self::spec_def().loc_kinds);
                (exists|k: usize|
                    #[trigger] kinds.contains_key(k) && kinds[k] == LocKind::MemInitialized && !(Self::spec_loc_type(k) is Some
                        && Self::spec_fills(k, Self::spec_loc_type(k)->0.type_key))) ==> ((r matches Err(
                    ProtoBuildErr::UnknownType { loc_id },
                ) && kinds.contains_key(loc_id) && kinds[loc_id] == LocKind::MemInitialized && Self::spec_loc_type(loc_id) is None)
                    || (r matches Err(ProtoBuildErr::MemoryFillPromiseBroken { loc_id }) && kinds.contains_key(loc_id)
                    && kinds[loc_id] == LocKind::MemInitialized && Self::spec_loc_type(loc_id) is Some && !Self::spec_fills(
                    loc_id,
                    Self::spec_loc_type(loc_id)->0.type_key,
                )))
            }),
            ({
                let kinds = loc_kind_map_contents(Self::spec_def().loc_kinds);
                (forall|k: usize|
                    #[trigger] kinds.contains_key(k) && kinds[k] == LocKind::MemInitialized ==> Self::spec_loc_type(k) is Some
                        && Self::spec_fills(k, Self::spec_loc_type(k)->0.type_key)) && !(forall|k: usize|
                    #[trigger] kinds.contains_key(k) ==> Self::spec_loc_type(k) is Some) ==> (r matches Err(
                    ProtoBuildErr::UnknownType { loc_id },
                ) && kinds.contains_key(loc_id) && Self::spec_loc_type(loc_id) is None)
            }),
            ({
                let kinds = loc_kind_map_contents(Self::spec_def().loc_kinds);
                let types = Map::new(|k: usize| kinds.contains_key(k), |k: usize| Self::spec_loc_type(k)->0.type_key);
                (forall|k: usize| #[trigger] kinds.contains_key(k) ==> Self::spec_loc_type(k) is Some) && (forall|id: usize|
                    #[trigger] kinds.contains_key(id) && kinds[id] == LocKind::MemInitialized ==> Self::spec_fills(
                        id,
                        Self::spec_loc_type(id)->0.type_key,
                    )) ==> match rules_fold(kinds, types, Self::spec_def().behaviour.rules@) {
                    Ok(ms) => r matches Ok((core, _)) && exists|c: usize|
                        core_built(core, kinds, types, c, Self::spec_def().behaviour.rules@, ms),
                    Err(e) => r matches Err(e2) && e2 == e,
                }
            }),
            r matches Ok((core, cells)) ==> {
                &&& core.commitment is None
                &&& core.ready_tentative@.len() == 0
                &&& core.awaiting_states@.len() == 0
                &&& filled_ids(cells@) == mem_initialized_ids(loc_kind_map_contents(Self::spec_def().loc_kinds))
                &&& forall|i: int, j: int|
                    0 <= i < j < cells@.len() ==> #[trigger] cells@[i].loc_id != #[trigger] cells@[j].loc_id
            },
    {
        let def = Self::typeless_proto_def();
        let ghost kinds = loc_kind_map_contents(Self::spec_def().loc_kinds);
        let keys = def.loc_kinds.keys();
        let mut max: usize = 0;
        let mut k: usize = 0;
        while k < keys.len()
            invariant
                k <= keys@.len(),
                forall|j: int| 0 <= j < k ==> keys@[j] <= max,
            decreases keys@.len() - k,
        {
            if keys[k] > max {
                max = keys[k];
            }
            k += 1;
        }
        proof {
            assert forall|j: usize| #[trigger] kinds.contains_key(j) implies j <= max by {
                assert(keys@.to_set().contains(j));
            }
        }
        // type and fill the initialized memory cells, in the map's order
        let mut cells: Vec<MemFillPromiseFulfilled<Self::MemValue>> = Vec::new();
        k = 0;
        while k < keys.len()
            invariant
                k <= keys@.len(),
                kinds == loc_kind_map_contents(def.loc_kinds),
                def == Self::spec_def(),
                keys@.to_set() == kinds.dom(),
                keys@.no_duplicates(),
                filled_ids(cells@) == mem_initialized_ids(kinds).intersect(keys@.take(k as int).to_set()),
                forall|i: int| 0 <= i < cells@.len() ==> exists|j: int| 0 <= j < k && keys@[j] == #[trigger] cells@[i].loc_id,
                forall|i: int, j: int|
                    0 <= i < j < cells@.len() ==> #[trigger] cells@[i].loc_id != #[trigger] cells@[j].loc_id,
                forall|j: int|
                    0 <= j < k && kinds[#[trigger] keys@[j]] == LocKind::MemInitialized ==> Self::spec_loc_type(keys@[j]) is Some
                        && Self::spec_fills(keys@[j], Self::spec_loc_type(keys@[j])->0.type_key),
            decreases keys@.len() - k,
        {
            let loc_id = keys[k];
            let ghost before_cells = cells@;
            proof {
                assert(keys@.to_set().contains(loc_id));
            }
            if let Some(LocKind::MemInitialized) = def.loc_kinds.get(loc_id) {
                let info = match Self::loc_type(loc_id) {
                    Some(t) => t,
                    None => {
                        return Err(ProtoBuildErr::UnknownType { loc_id });
                    },
                };
                let promise = MemFillPromise { loc_id, type_key_expected: info.type_key };
                match Self::fill_memory(loc_id, promise) {
                    Some(f) => {
                        proof {
                            assert forall|i: int| 0 <= i < cells@.len() implies #[trigger] cells@[i].loc_id != loc_id by {
                                let j = choose|j: int| 0 <= j < k && keys@[j] == cells@[i].loc_id;
                                assert(keys@[j] != keys@[k as int]);
                            }
                        }
                        cells.push(f);
                    },
                    None => {
                        return Err(ProtoBuildErr::MemoryFillPromiseBroken { loc_id });
                    },
                }
            }
            proof {
                assert(keys@.take(k + 1) =~= keys@.take(k as int).push(loc_id));
                assert(keys@.take(k + 1).to_set() =~= keys@.take(k as int).to_set().insert(loc_id)) by {
                    assert forall|x: usize| keys@.take(k + 1).to_set().contains(x) <==> keys@.take(k as int).to_set().insert(
                        loc_id,
                    ).contains(x) by {
                        if keys@.take(k + 1).contains(x) && x != loc_id {
                            let w = choose|w: int| 0 <= w < k + 1 && #[trigger] keys@.take(k + 1)[w] == x;
                            assert(keys@.take(k as int)[w] == x);
                        }
                        if keys@.take(k as int).contains(x) {
                            let w = choose|w: int| 0 <= w < k && #[trigger] keys@.take(k as int)[w] == x;
                            assert(keys@.take(k + 1)[w] == x);
                        }
                        if x == loc_id {
                            assert(keys@.take(k + 1)[k as int] == x);
                        }
                    }
                }
                assert(!keys@.take(k as int).to_set().contains(loc_id)) by {
                    if keys@.take(k as int).contains(loc_id) {
                        let w = choose|w: int| 0 <= w < k && #[trigger] keys@.take(k as int)[w] == loc_id;
                        assert(keys@[w] == keys@[k as int]);
                    }
                }
                assert(filled_ids(cells@) =~= mem_initialized_ids(kinds).intersect(keys@.take(k + 1).to_set())) by {
                    assert forall|l: usize| #[trigger] filled_ids(cells@).contains(l) <==> mem_initialized_ids(
                        kinds,
                    ).intersect(keys@.take(k + 1).to_set()).contains(l) by {
                        if l == loc_id && kinds[l] == LocKind::MemInitialized {
                            assert(cells@[cells@.len() - 1].loc_id == l);
                        }
                        if l == loc_id && kinds[l] != LocKind::MemInitialized {
                            assert(cells@ == before_cells);
                            assert(!filled_ids(before_cells).contains(l));
                        }
                        if filled_ids(cells@).contains(l) {
                            let i = choose|i: int| 0 <= i < cells@.len() && cells@[i].loc_id == l;
                            if i < cells@.len() - 1 {
                                assert(filled_ids(before_cells).contains(l));
                            }
                        }
                        if l != loc_id && mem_initialized_ids(kinds).intersect(keys@.take(k + 1).to_set()).contains(l) {
                            assert(keys@.take(k as int).to_set().contains(l));
                            assert(filled_ids(before_cells).contains(l));
                            let i = choose|i: int| 0 <= i < before_cells.len() && before_cells[i].loc_id == l;
                            assert(cells@[i].loc_id == l);
                        }
                    }
                }
            }
            k += 1;
        }
        proof {
            assert(keys@.take(keys@.len() as int) =~= keys@);
            assert(filled_ids(cells@) =~= mem_initialized_ids(kinds));
            assert forall|j: usize|
                #[trigger] kinds.contains_key(j) && kinds[j] == LocKind::MemInitialized implies Self::spec_loc_type(j) is Some
                    && Self::spec_fills(j, Self::spec_loc_type(j)->0.type_key) by {
                assert(keys@.to_set().contains(j));
                let q = choose|q: int| 0 <= q < keys@.len() && keys@[q] == j;
                assert(kinds[keys@[q]] == LocKind::MemInitialized);
            }
        }
        // the description's type for each location, in the map's order, up to the first
        // location it gives none
        let mut answers: Vec<Option<TypeInfo>> = Vec::new();
        k = 0;
        while k < keys.len()
            invariant_except_break
                k <= keys@.len(),
                answers@.len() == k,
                forall|j: int| 0 <= j < k ==> (#[trigger] answers@[j]) is Some,
                forall|j: int| 0 <= j < answers@.len() ==> #[trigger] answers@[j] == Self::spec_loc_type(keys@[j]),
            ensures
                answers@.len() <= keys@.len(),
                forall|j: int| 0 <= j < answers@.len() ==> #[trigger] answers@[j] == Self::spec_loc_type(keys@[j]),
                (answers@.len() == keys@.len() && forall|j: int| 0 <= j < answers@.len() ==> (#[trigger] answers@[j]) is Some)
                    || (0 < answers@.len() && answers@[answers@.len() - 1] is None),
            decreases keys@.len() - k,
        {
            let info = Self::loc_type(keys[k]);
            let none = info.is_none();
            answers.push(info);
            if none {
                break ;
            }
            k += 1;
        }
        let types = match collect_types(&keys, &answers, max) {
            Ok(t) => t,
            Err(e) => {
                proof {
                    let i = choose|i: int| 0 <= i < answers@.len() && #[trigger] answers@[i] is None && (forall|j: int|
                        0 <= j < i ==> (#[trigger] answers@[j]) is Some) && e == ProtoBuildErr::UnknownType { loc_id: keys@[i] };
                    assert(keys@.to_set().contains(keys@[i]));
                    assert(kinds.contains_key(keys@[i]));
                }
                return Err(e);
            },
        };
        proof {
            assert forall|id: usize| #[trigger] kinds.contains_key(id) implies types@[id as int] is Some
                && Self::spec_loc_type(id) is Some
                && types@[id as int]->0 == Self::spec_loc_type(id)->0.type_key by {
                assert(keys@.to_set().contains(id));
                let q = choose|q: int| 0 <= q < keys@.len() && keys@[q] == id;
                assert(answers@[q] is Some);
                let w = choose|w: int| 0 <= w < answers@.len() && keys@[w] == id as int;
                assert(keys@[w] == keys@[q]);
                assert(types@[id as int] == typed_at(keys@, answers@, id as int));
            }
            assert((forall|k: usize| #[trigger] kinds.contains_key(k) ==> Self::spec_loc_type(k) is Some));
            assert(type_map(kinds, types@) =~= Map::new(|k: usize| kinds.contains_key(k), |k: usize| Self::spec_loc_type(k)->0.type_key));
        }
        // the initialized memory cells, all filled by now
        let mut filled: Vec<bool> = Vec::new();
        let mut id: usize = 0;
        loop
            invariant_except_break
                id <= max,
                filled@.len() == id,
                kinds == loc_kind_map_contents(def.loc_kinds),
                forall|j: int|
                    0 <= j < id ==> #[trigger] filled@[j] == (kinds.contains_key(j as usize) && kinds[j as usize]
                        == LocKind::MemInitialized),
            ensures
                filled@.len() == max + 1,
                forall|j: int|
                    0 <= j <= max ==> #[trigger] filled@[j] == (kinds.contains_key(j as usize) && kinds[j as usize]
                        == LocKind::MemInitialized),
            decreases max - id,
        {
            let fill = match def.loc_kinds.get(id) {
                Some(LocKind::MemInitialized) => true,
                _ => false,
            };
            filled.push(fill);
            if id == max {
                break ;
            }
            id += 1;
        }
        proof {
            assert forall|j: usize| #[trigger] fill_ok(kinds, filled@, j) by {
                if j <= max {
                    assert(filled@[j as int] == (kinds.contains_key(j) && kinds[j] == LocKind::MemInitialized));
                } else {
                    assert(!kinds.contains_key(j));
                }
            }
            assert(types_cover(kinds, types@));
        }
        match build_core(def, &types, &filled) {
            Ok(core) => Ok((core, cells)),
            Err(e) => Err(e),
        }
    }
}

/// The memory cells `cells` gives values to.
pub open spec fn filled_ids<V>(cells: Seq<MemFillPromiseFulfilled<V>>) -> Set<usize> {
    Set::new(|l: usize| exists|i: int| 0 <= i < cells.len() && cells[i].loc_id == l)
}

/// The initialized memory cells of `kinds`.
pub open spec fn mem_initialized_ids(kinds: Map<usize, LocKind>) -> Set<usize> {
    Set::new(|l: usize| kinds.contains_key(l) && kinds[l] == LocKind::MemInitialized)
}

/// The type that answer `i` gives location `keys[i]`, for the location `id`: `None` where
/// no answer names `id`.
pub open spec fn typed_at(keys: Seq<LocId>, answers: Seq<Option<TypeInfo>>, id: int) -> Option<TypeKey> {
    if exists|i: int| 0 <= i < answers.len() && keys[i] == id {
        let i = choose|i: int| 0 <= i < answers.len() && keys[i] == id;
        match answers[i] {
            Some(t) => Some(t.type_key),
            None => None,
        }
    } else {
        None
    }
}

/// The type table of locations `0..=max` from the answers a description gave for the
/// locations `keys` (answer `i` for `keys[i]`): refused, naming the location, at the
/// first answer that gives no type.
pub fn collect_types(keys: &Vec<LocId>, answers: &Vec<Option<TypeInfo>>, max: usize) -> (r: Result<
    Vec<Option<TypeKey>>,
    ProtoBuildErr,
>)
    requires
        answers@.len() <= keys@.len(),
        keys@.no_duplicates(),
        forall|i: int| 0 <= i < keys@.len() ==> #[trigger] keys@[i] <= max,
    ensures
        (exists|i: int| 0 <= i < answers@.len() && #[trigger] answers@[i] is None) ==> exists|i: int|
            0 <= i < answers@.len() && #[trigger] answers@[i] is None && (forall|j: int|
                0 <= j < i ==> (#[trigger] answers@[j]) is Some) && r == Err::<Vec<Option<TypeKey>>, ProtoBuildErr>(
                ProtoBuildErr::UnknownType { loc_id: keys@[i] },
            ),
        (forall|i: int| 0 <= i < answers@.len() ==> (#[trigger] answers@[i]) is Some) ==> (r matches Ok(types)
            && types@.len() == max + 1 && forall|id: int| 0 <= id <= max ==> #[trigger] types@[id] == typed_at(
            keys@,
            answers@,
            id,
        )),
{
    let mut types: Vec<Option<TypeKey>> = Vec::new();
    let mut id: usize = 0;
    loop
        invariant_except_break
            id <= max,
            types@.len() == id,
            forall|j: int| 0 <= j < id ==> #[trigger] types@[j] is None,
        ensures
            types@.len() == max + 1,
            forall|j: int| 0 <= j <= max ==> #[trigger] types@[j] is None,
        decreases max - id,
    {
        types.push(None);
        if id == max {
            break ;
        }
        id += 1;
    }
    let mut i: usize = 0;
    while i < answers.len()
        invariant
            i <= answers@.len(),
            answers@.len() <= keys@.len(),
            keys@.no_duplicates(),
            forall|q: int| 0 <= q < keys@.len() ==> #[trigger] keys@[q] <= max,
            types@.len() == max + 1,
            forall|j: int| 0 <= j < i ==> (#[trigger] answers@[j]) is Some,
            forall|id: int|
                0 <= id <= max ==> #[trigger] types@[id] == (if exists|q: int| 0 <= q < i && keys@[q] == id {
                    typed_at(keys@, answers@, id)
                } else {
                    None
                }),
        decreases answers@.len() - i,
    {
        match answers[i] {
            None => {
                return Err(ProtoBuildErr::UnknownType { loc_id: keys[i] });
            },
            Some(t) => {
                let ghost before = types@;
                let kid = keys[i];
                types.set(kid, Some(t.type_key));
                proof {
                    assert forall|id: int| 0 <= id <= max implies #[trigger] types@[id] == (if exists|q: int|
                        0 <= q < i + 1 && keys@[q] == id {
                        typed_at(keys@, answers@, id)
                    } else {
                        None
                    }) by {
                        if id == kid {
                            assert(keys@[i as int] == id);
                            let w = choose|w: int| 0 <= w < answers@.len() && keys@[w] == id;
                            assert(w == i) by {
                                if w != i {
                                    assert(keys@[w] == keys@[i as int]);
                                }
                            }
                        } else {
                            assert(types@[id] == before[id]);
                            if exists|q: int| 0 <= q < i + 1 && keys@[q] == id {
                                let q = choose|q: int| 0 <= q < i + 1 && keys@[q] == id;
                                assert(q < i);
                            }
                        }
                    }
                }
            },
        }
        i += 1;
    }
    proof {
        assert forall|id: int| 0 <= id <= max implies #[trigger] types@[id] == typed_at(keys@, answers@, id) by {
            if !(exists|q: int| 0 <= q < answers@.len() && keys@[q] == id) {
            }
        }
    }
    Ok(types)
}

} // verus!
