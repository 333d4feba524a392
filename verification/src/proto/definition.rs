//! The user-facing description of a protocol: its rules and the kinds of its locations.
use crate::proto::collections::LocKindMap;
use crate::proto::reflection::TypeInfo;
use crate::LocId;
use vstd::prelude::*;

verus! {

/// Identity of a data type, as the protocol compares it.
pub type TypeKey = u64;

#[derive(Debug)]
pub struct BehaviourDef {
    pub rules: Vec<RuleDef>,
}

#[derive(Debug)]
pub struct RuleDef {
    pub guard: Formula,
    pub actions: Vec<ActionDef>,
}

/// One data movement: the putter's datum goes to every getter.
#[derive(Debug, Clone)]
pub struct ActionDef {
    pub putter: usize,
    pub getters: Vec<LocId>,
}

/// Data constraint of a rule.
#[derive(Debug)]
pub enum Formula {
    True,
    And(Vec<Formula>),
    Or(Vec<Formula>),
    NoneOf(Vec<Formula>),
    ValueEq(Term, Term),
    MemIsNull(LocId),
    TermVal(Term),
    FuncDeclaration { name: &'static str, args: Vec<Term> },
}

#[derive(Debug)]
pub enum Term {
    Boolean(Box<Formula>),
    Value(LocId),
}

/// Why a protocol definition could not be turned into a runnable protocol.
#[derive(Debug, Copy, Clone)]
pub enum ProtoBuildErr {
    UnknownType { loc_id: LocId },
    SynchronousFiring { loc_id: LocId },
    LocCannotGet { loc_id: LocId },
    LocCannotPut { loc_id: LocId },
    TypeMismatch { rule_id: usize, action_id: usize, loc_id_putter: LocId, loc_id_getter: LocId },
    MemoryFillPromiseBroken { loc_id: LocId },
    FunctionUndefined { name: &'static str },
    FunctionUsedWithWrongArity { name: &'static str, used_arity: usize },
}

/// A function the protocol's guards may call: the type it returns and the types of its
/// parameters.
pub struct FuncDef {
    pub ret_info: TypeInfo,
    pub param_info: Vec<TypeInfo>,
}

/// What a location of the protocol is.
#[derive(Debug, Copy, Clone, PartialEq, Eq, Structural)]
pub enum LocKind {
    PortPutter,
    PortGetter,
    MemInitialized,
    MemUninitialized,
}

impl LocKind {
    pub open spec fn spec_can_put(self) -> bool {
        self != LocKind::PortGetter
    }

    pub open spec fn spec_can_get(self) -> bool {
        self != LocKind::PortPutter
    }

    pub open spec fn spec_is_mem(self) -> bool {
        self == LocKind::MemInitialized || self == LocKind::MemUninitialized
    }

    /// Every location but a getter port can supply data.
    pub fn can_put(self) -> (r: bool)
        ensures
            r == self.spec_can_put(),
    {
        match self {
            LocKind::PortGetter => false,
            _ => true,
        }
    }

    /// Every location but a putter port can receive data.
    pub fn can_get(self) -> (r: bool)
        ensures
            r == self.spec_can_get(),
    {
        match self {
            LocKind::PortPutter => false,
            _ => true,
        }
    }

    /// Whether the location is a memory cell.
    pub fn is_mem(self) -> (r: bool)
        ensures
            r == self.spec_is_mem(),
    {
        match self {
            LocKind::PortPutter | LocKind::PortGetter => false,
            LocKind::MemInitialized | LocKind::MemUninitialized => true,
        }
    }
}

/// A protocol's behaviour together with the kind of each location it uses.
pub struct TypelessProtoDef {
    pub behaviour: BehaviourDef,
    pub loc_kinds: LocKindMap,
}

/// Role of a port location.
#[derive(Debug, Copy, Clone, Eq, PartialEq, Structural)]
pub enum PortRole {
    Putter,
    Getter,
}

/// A port not yet claimed: its role and data type.
#[derive(Debug, Copy, Clone, Eq, PartialEq, Structural)]
pub struct PortInfo {
    pub role: PortRole,
    pub type_key: TypeKey,
}

} // verus!
