//! Run-time descriptions of the data types that locations carry.
use crate::proto::definition::TypeKey;
use vstd::prelude::*;

verus! {

/// The data type of a location, identified by its key.
#[derive(Debug, Clone, Copy, PartialEq, Eq, Structural)]
pub struct TypeInfo {
    pub type_key: TypeKey,
}

impl TypeInfo {
    /// The key of the described type.
    pub fn get_tid(&self) -> (r: TypeKey)
        ensures
            r == self.type_key,
    {
        self.type_key
    }

    /// Describes the type with key `type_key`.
    pub fn new(type_key: TypeKey) -> (r: Self)
        ensures
            r.type_key == type_key,
    {
        TypeInfo { type_key }
    }
}

/// Description of a type stored in a memory cell: its key, whether it is `Copy`, and
/// its size and alignment in bytes.
#[derive(Debug, Clone, Copy, PartialEq, Eq, Structural)]
pub struct MemTypeInfo {
    pub type_key: TypeKey,
    pub is_copy: bool,
    pub bytes: usize,
    pub align: usize,
}

impl MemTypeInfo {
    pub fn new(type_key: TypeKey, is_copy: bool, bytes: usize, align: usize) -> (r: Self)
        ensures
            r == (MemTypeInfo { type_key, is_copy, bytes, align }),
    {
        MemTypeInfo { type_key, is_copy, bytes, align }
    }
}

} // verus!
