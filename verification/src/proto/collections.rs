//! The outside collections that the protocol definition and runtime hold,
//! each behind a small set of trusted operations.
use crate::proto::definition::{LocKind, PortInfo};
use crate::LocId;
use itertools::Itertools;
use smallvec::SmallVec;
use vstd::prelude::*;

verus! {

/// Kinds of the protocol's locations, keyed by location id
/// (a `hashbrown::HashMap<LocId, LocKind>`).
#[verifier::external_body]
pub struct LocKindMap {
    inner: hashbrown::HashMap<LocId, LocKind>,
}

/// What a [`LocKindMap`] holds.
pub uninterp spec fn loc_kind_map_contents(m: LocKindMap) -> Map<usize, LocKind>;

impl LocKindMap {
    /// `hashbrown::HashMap::new`: the map starts empty.
    #[verifier::external_body]
    pub fn new() -> (r: LocKindMap)
        ensures
            loc_kind_map_contents(r) =~= Map::empty(),
    {
        LocKindMap { inner: hashbrown::HashMap::new() }
    }

    /// `hashbrown::HashMap::insert`: maps `k` to `v`, handing back the value it replaced.
    #[verifier::external_body]
    pub fn insert(&mut self, k: LocId, v: LocKind) -> (r: Option<LocKind>)
        ensures
            loc_kind_map_contents(*final(self)) == loc_kind_map_contents(*old(self)).insert(k, v),
            r == (if loc_kind_map_contents(*old(self)).contains_key(k) {
                Some(loc_kind_map_contents(*old(self))[k])
            } else {
                None
            }),
    {
        self.inner.insert(k, v)
    }

    /// `hashbrown::HashMap::get`: the value under `k`, if any.
    #[verifier::external_body]
    pub fn get(&self, k: LocId) -> (r: Option<LocKind>)
        ensures
            r == (if loc_kind_map_contents(*self).contains_key(k) {
                Some(loc_kind_map_contents(*self)[k])
            } else {
                None
            }),
    {
        self.inner.get(&k).copied()
    }

    /// `hashbrown::HashMap::keys`: every key exactly once, in the map's own order
    /// (which this contract leaves open).
    #[verifier::external_body]
    pub fn keys(&self) -> (r: Vec<LocId>)
        ensures
            r@.to_set() == loc_kind_map_contents(*self).dom(),
            r@.no_duplicates(),
    {
        self.inner.keys().copied().collect()
    }
}

/// Ports not yet claimed by a putter or getter object, keyed by location id
/// (a `hashbrown::HashMap<LocId, PortInfo>`).
#[verifier::external_body]
pub struct PortInfoMap {
    inner: hashbrown::HashMap<LocId, PortInfo>,
}

/// What a [`PortInfoMap`] holds.
pub uninterp spec fn port_info_map_contents(m: PortInfoMap) -> Map<usize, PortInfo>;

impl PortInfoMap {
    /// `hashbrown::HashMap::new`: the map starts empty.
    #[verifier::external_body]
    pub fn new() -> (r: PortInfoMap)
        ensures
            port_info_map_contents(r) =~= Map::empty(),
    {
        PortInfoMap { inner: hashbrown::HashMap::new() }
    }

    /// `hashbrown::HashMap::insert`: maps `k` to `v`, handing back the value it replaced.
    #[verifier::external_body]
    pub fn insert(&mut self, k: LocId, v: PortInfo) -> (r: Option<PortInfo>)
        ensures
            port_info_map_contents(*final(self)) == port_info_map_contents(*old(self)).insert(k, v),
            r == (if port_info_map_contents(*old(self)).contains_key(k) {
                Some(port_info_map_contents(*old(self))[k])
            } else {
                None
            }),
    {
        self.inner.insert(k, v)
    }

    /// `hashbrown::HashMap::get`: the value under `k`, if any.
    #[verifier::external_body]
    pub fn get(&self, k: LocId) -> (r: Option<PortInfo>)
        ensures
            r == (if port_info_map_contents(*self).contains_key(k) {
                Some(port_info_map_contents(*self)[k])
            } else {
                None
            }),
    {
        self.inner.get(&k).copied()
    }

    /// `hashbrown::HashMap::remove`: drops the entry under `k`, handing back its value.
    #[verifier::external_body]
    pub fn remove(&mut self, k: LocId) -> (r: Option<PortInfo>)
        ensures
            port_info_map_contents(*final(self)) == port_info_map_contents(*old(self)).remove(k),
            r == (if port_info_map_contents(*old(self)).contains_key(k) {
                Some(port_info_map_contents(*old(self))[k])
            } else {
                None
            }),
    {
        self.inner.remove(&k)
    }
}

/// A short list of location ids (a `smallvec::SmallVec<[LocId; 4]>`).
#[verifier::external_body]
pub struct LocList {
    inner: SmallVec<[LocId; 4]>,
}

/// What a [`LocList`] holds, in order.
pub uninterp spec fn loc_list_contents(l: LocList) -> Seq<usize>;

impl LocList {
    /// `SmallVec::new`: the list starts empty.
    #[verifier::external_body]
    pub fn new() -> (r: LocList)
        ensures
            loc_list_contents(r) =~= Seq::empty(),
    {
        LocList { inner: SmallVec::new() }
    }

    /// `SmallVec::push`: appends `id`.
    #[verifier::external_body]
    pub fn push(&mut self, id: LocId)
        ensures
            loc_list_contents(*final(self)) == loc_list_contents(*old(self)).push(id),
    {
        self.inner.push(id)
    }

    /// `SmallVec::len`: the number of ids held.
    #[verifier::external_body]
    pub fn len(&self) -> (r: usize)
        ensures
            r == loc_list_contents(*self).len(),
    {
        self.inner.len()
    }

    /// Indexing a `SmallVec`: the id at position `i`.
    #[verifier::external_body]
    pub fn get(&self, i: usize) -> (r: LocId)
        requires
            i < loc_list_contents(*self).len(),
        ensures
            r == loc_list_contents(*self)[i as int],
    {
        self.inner[i]
    }
}

/// `s` with every element after its first occurrence removed, order kept.
pub open spec fn unique_seq(s: Seq<usize>) -> Seq<usize>
    decreases s.len(),
{
    if s.len() == 0 {
        Seq::empty()
    } else if s.drop_last().contains(s.last()) {
        unique_seq(s.drop_last())
    } else {
        unique_seq(s.drop_last()).push(s.last())
    }
}

/// `itertools::Itertools::unique`: the ids of `v` without repeats, each kept at its
/// first occurrence.
#[verifier::external_body]
pub fn unique_ids(v: &Vec<LocId>) -> (r: Vec<LocId>)
    ensures
        r@ == unique_seq(v@),
{
    v.iter().copied().unique().collect()
}

} // verus!
