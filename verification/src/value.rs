//! Values that cross a switch, and the typed holders they cross in.
//!
//! A value sent into a context or yielded out of it is one of a closed set of
//! kinds, each carrying its tag. A [`Slot`] is a holder declared for one kind:
//! it is either empty or holds a value, and a checked access compares the tag
//! the accessor expects with the tag the holder was declared for.

use vstd::prelude::*;

verus! {

/// The tag of a transferable value.
#[derive(Clone, Copy, Debug, PartialEq, Eq, Structural)]
pub enum ValueType {
    Unit,
    Bool,
    I32,
    I64,
    U64,
    Usize,
    Str,
    Bytes,
}

/// A value that can be sent into a context or yielded out of one.
#[derive(Clone, Debug, PartialEq, Eq)]
pub enum Value {
    Unit,
    Bool(bool),
    I32(i32),
    I64(i64),
    U64(u64),
    Usize(usize),
    Str(String),
    Bytes(Vec<u8>),
}

impl Value {
    /// The tag of this value.
    pub open spec fn tag(self) -> ValueType {
        match self {
            Value::Unit => ValueType::Unit,
            Value::Bool(_) => ValueType::Bool,
            Value::I32(_) => ValueType::I32,
            Value::I64(_) => ValueType::I64,
            Value::U64(_) => ValueType::U64,
            Value::Usize(_) => ValueType::Usize,
            Value::Str(_) => ValueType::Str,
            Value::Bytes(_) => ValueType::Bytes,
        }
    }

    /// The tag of this value.
    pub fn type_of(&self) -> (t: ValueType)
        ensures
            t == self.tag(),
    {
        match self {
            Value::Unit => ValueType::Unit,
            Value::Bool(_) => ValueType::Bool,
            Value::I32(_) => ValueType::I32,
            Value::I64(_) => ValueType::I64,
            Value::U64(_) => ValueType::U64,
            Value::Usize(_) => ValueType::Usize,
            Value::Str(_) => ValueType::Str,
            Value::Bytes(_) => ValueType::Bytes,
        }
    }
}

/// A holder for at most one value of one declared kind.
#[derive(Clone, Debug, PartialEq, Eq)]
pub struct Slot {
    /// The kind of value this holder was declared for.
    pub ty: ValueType,
    /// The value held, if any.
    pub value: Option<Value>,
}

impl Slot {
    /// A holder holds nothing, or a value of the kind it was declared for.
    pub open spec fn wf(self) -> bool {
        self.value matches Some(v) ==> v.tag() == self.ty
    }

    /// The holder of kind `ty` that holds nothing.
    pub open spec fn spec_empty(ty: ValueType) -> Slot {
        Slot { ty, value: None }
    }

    /// The holder declared for the kind of `v`, holding `v`.
    pub open spec fn spec_holding(v: Value) -> Slot {
        Slot { ty: v.tag(), value: Some(v) }
    }

    /// This holder after its value was taken out.
    pub open spec fn emptied(self) -> Slot {
        Slot { ty: self.ty, value: None }
    }

    /// This holder after `v` was put in.
    pub open spec fn filled(self, v: Value) -> Slot {
        Slot { ty: self.ty, value: Some(v) }
    }

    /// An empty holder for values of kind `ty`.
    pub fn empty(ty: ValueType) -> (s: Slot)
        ensures
            s == Slot::spec_empty(ty),
            s.wf(),
    {
        Slot { ty, value: None }
    }

    /// A holder declared for the kind of `v`, with `v` in it.
    pub fn holding(v: Value) -> (s: Slot)
        ensures
            s == Slot::spec_holding(v),
            s.wf(),
    {
        let ty = v.type_of();
        Slot { ty, value: Some(v) }
    }
}

} // verus!
