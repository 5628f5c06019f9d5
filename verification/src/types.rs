//! Semantic Go types.

use vstd::prelude::*;

verus! {

#[derive(Clone, Copy, Debug, PartialEq, Eq, Structural)]
pub enum IntTy {
    Int,
    Int8,
    Int16,
    Int32,
    Int64,
}

#[derive(Clone, Copy, Debug, PartialEq, Eq, Structural)]
pub enum UintTy {
    Uint,
    Uint8,
    Uint16,
    Uint32,
    Uint64,
    Uintptr,
}

#[derive(Clone, Copy, Debug, PartialEq, Eq, Structural)]
pub enum FloatTy {
    Float32,
    Float64,
}

#[derive(Clone, Copy, Debug, PartialEq, Eq, Structural)]
pub enum ComplexTy {
    Complex64,
    Complex128,
}

/// The kinds of untyped constants.
#[derive(Clone, Copy, Debug, PartialEq, Eq, Structural)]
pub enum UntypedTy {
    Bool,
    Int,
    Rune,
    Float,
    Complex,
    String,
}

#[derive(Clone, Copy, Debug, PartialEq, Eq, Structural)]
pub enum ChannelDir {
    SendReceive,
    Send,
    Receive,
}

impl ChannelDir {
    /// Values can be sent on bidirectional and send-only channels.
    pub fn can_send(self) -> (r: bool)
        ensures
            r == (self != ChannelDir::Receive),
    {
        !matches!(self, ChannelDir::Receive)
    }

    /// Values can be received from bidirectional and receive-only channels.
    pub fn can_receive(self) -> (r: bool)
        ensures
            r == (self != ChannelDir::Send),
    {
        !matches!(self, ChannelDir::Send)
    }
}

/// A semantic Go type.  Struct, interface and function types are carried by
/// the identity of their declaration; defined types carry their definition
/// identity and their underlying type.
#[derive(Debug, Eq)]
pub enum Ty {
    Unit,
    Bool,
    Int(IntTy),
    Uint(UintTy),
    Float(FloatTy),
    Complex(ComplexTy),
    String,
    Untyped(UntypedTy),
    Named { definition: u64, underlying: Box<Ty> },
    LocalNamed { definition: u64, underlying: Box<Ty> },
    NamedRef { definition: u64 },
    Pointer(Box<Ty>),
    Slice(Box<Ty>),
    Array(u64, Box<Ty>),
    MapTy(Box<Ty>, Box<Ty>),
    Channel(ChannelDir, Box<Ty>),
    Struct(u64),
    Interface(u64),
    Function(u64),
    /// The pair of results of a comma-ok form: the value and its flag or
    /// status.
    Tuple(Box<Ty>, Box<Ty>),
}

/// Structural equality of types.
pub fn ty_equal(a: &Ty, b: &Ty) -> (r: bool)
    ensures
        r == (*a == *b),
    decreases a,
{
    match (a, b) {
        (Ty::Unit, Ty::Unit) => true,
        (Ty::Bool, Ty::Bool) => true,
        (Ty::Int(x), Ty::Int(y)) => *x == *y,
        (Ty::Uint(x), Ty::Uint(y)) => *x == *y,
        (Ty::Float(x), Ty::Float(y)) => *x == *y,
        (Ty::Complex(x), Ty::Complex(y)) => *x == *y,
        (Ty::String, Ty::String) => true,
        (Ty::Untyped(x), Ty::Untyped(y)) => *x == *y,
        (
            Ty::Named { definition: d1, underlying: u1 },
            Ty::Named { definition: d2, underlying: u2 },
        ) => *d1 == *d2 && ty_equal(u1, u2),
        (
            Ty::LocalNamed { definition: d1, underlying: u1 },
            Ty::LocalNamed { definition: d2, underlying: u2 },
        ) => *d1 == *d2 && ty_equal(u1, u2),
        (Ty::NamedRef { definition: d1 }, Ty::NamedRef { definition: d2 }) => *d1 == *d2,
        (Ty::Pointer(x), Ty::Pointer(y)) => ty_equal(x, y),
        (Ty::Slice(x), Ty::Slice(y)) => ty_equal(x, y),
        (Ty::Array(n1, x), Ty::Array(n2, y)) => *n1 == *n2 && ty_equal(x, y),
        (Ty::MapTy(k1, v1), Ty::MapTy(k2, v2)) => ty_equal(k1, k2) && ty_equal(v1, v2),
        (Ty::Channel(d1, x), Ty::Channel(d2, y)) => *d1 == *d2 && ty_equal(x, y),
        (Ty::Struct(x), Ty::Struct(y)) => *x == *y,
        (Ty::Interface(x), Ty::Interface(y)) => *x == *y,
        (Ty::Function(x), Ty::Function(y)) => *x == *y,
        (Ty::Tuple(a1, b1), Ty::Tuple(a2, b2)) => ty_equal(a1, a2) && ty_equal(b1, b2),
        _ => false,
    }
}

/// A copy of a type.
pub fn ty_copy(a: &Ty) -> (r: Ty)
    ensures
        r == *a,
    decreases a,
{
    match a {
        Ty::Unit => Ty::Unit,
        Ty::Bool => Ty::Bool,
        Ty::Int(x) => Ty::Int(*x),
        Ty::Uint(x) => Ty::Uint(*x),
        Ty::Float(x) => Ty::Float(*x),
        Ty::Complex(x) => Ty::Complex(*x),
        Ty::String => Ty::String,
        Ty::Untyped(x) => Ty::Untyped(*x),
        Ty::Named { definition, underlying } => Ty::Named {
            definition: *definition,
            underlying: Box::new(ty_copy(underlying)),
        },
        Ty::LocalNamed { definition, underlying } => Ty::LocalNamed {
            definition: *definition,
            underlying: Box::new(ty_copy(underlying)),
        },
        Ty::NamedRef { definition } => Ty::NamedRef { definition: *definition },
        Ty::Pointer(x) => Ty::Pointer(Box::new(ty_copy(x))),
        Ty::Slice(x) => Ty::Slice(Box::new(ty_copy(x))),
        Ty::Array(n, x) => Ty::Array(*n, Box::new(ty_copy(x))),
        Ty::MapTy(k, v) => Ty::MapTy(Box::new(ty_copy(k)), Box::new(ty_copy(v))),
        Ty::Channel(d, x) => Ty::Channel(*d, Box::new(ty_copy(x))),
        Ty::Struct(x) => Ty::Struct(*x),
        Ty::Interface(x) => Ty::Interface(*x),
        Ty::Function(x) => Ty::Function(*x),
        Ty::Tuple(a, b) => Ty::Tuple(Box::new(ty_copy(a)), Box::new(ty_copy(b))),
    }
}

impl PartialEq for Ty {
    fn eq(&self, other: &Ty) -> (r: bool) {
        ty_equal(self, other)
    }
}

impl vstd::std_specs::cmp::PartialEqSpecImpl for Ty {
    open spec fn obeys_eq_spec() -> bool {
        true
    }

    open spec fn eq_spec(&self, other: &Ty) -> bool {
        *self == *other
    }
}

impl Clone for Ty {
    fn clone(&self) -> (r: Ty)
        ensures
            r == *self,
    {
        ty_copy(self)
    }
}

impl Ty {
    /// The underlying type: defined types are unwrapped until a type that is
    /// not a defined type with a known underlying type is reached.
    pub open spec fn spec_underlying(self) -> Ty
        decreases self,
    {
        match self {
            Ty::Named { underlying, .. } => underlying.spec_underlying(),
            Ty::LocalNamed { underlying, .. } => underlying.spec_underlying(),
            _ => self,
        }
    }

    pub fn underlying(&self) -> (r: &Ty)
        ensures
            *r == self.spec_underlying(),
        decreases self,
    {
        match self {
            Ty::Named { underlying, .. } => underlying.underlying(),
            Ty::LocalNamed { underlying, .. } => underlying.underlying(),
            _ => self,
        }
    }

    /// The type that an untyped constant of this kind takes by default;
    /// every other type is its own default.
    pub open spec fn spec_default_typed(self) -> Ty {
        match self {
            Ty::Untyped(UntypedTy::Bool) => Ty::Bool,
            Ty::Untyped(UntypedTy::Int) => Ty::Int(IntTy::Int),
            Ty::Untyped(UntypedTy::Rune) => Ty::Int(IntTy::Int32),
            Ty::Untyped(UntypedTy::Float) => Ty::Float(FloatTy::Float64),
            Ty::Untyped(UntypedTy::Complex) => Ty::Complex(ComplexTy::Complex128),
            Ty::Untyped(UntypedTy::String) => Ty::String,
            _ => self,
        }
    }

    pub fn default_typed(&self) -> (r: Ty)
        ensures
            r == self.spec_default_typed(),
    {
        match self {
            Ty::Untyped(UntypedTy::Bool) => Ty::Bool,
            Ty::Untyped(UntypedTy::Int) => Ty::Int(IntTy::Int),
            Ty::Untyped(UntypedTy::Rune) => Ty::Int(IntTy::Int32),
            Ty::Untyped(UntypedTy::Float) => Ty::Float(FloatTy::Float64),
            Ty::Untyped(UntypedTy::Complex) => Ty::Complex(ComplexTy::Complex128),
            Ty::Untyped(UntypedTy::String) => Ty::String,
            _ => self.clone(),
        }
    }

    /// Integer types, including untyped integer and rune constants.
    pub open spec fn spec_is_integer(self) -> bool {
        match self.spec_underlying() {
            Ty::Int(_) | Ty::Uint(_) => true,
            Ty::Untyped(UntypedTy::Int) | Ty::Untyped(UntypedTy::Rune) => true,
            _ => false,
        }
    }

    pub fn is_integer(&self) -> (r: bool)
        ensures
            r == self.spec_is_integer(),
    {
        match self.underlying() {
            Ty::Int(_) | Ty::Uint(_) => true,
            Ty::Untyped(UntypedTy::Int) | Ty::Untyped(UntypedTy::Rune) => true,
            _ => false,
        }
    }

    /// Integer, floating-point and complex types, typed or untyped.
    pub open spec fn spec_is_numeric(self) -> bool {
        match self.spec_underlying() {
            Ty::Int(_) | Ty::Uint(_) | Ty::Float(_) | Ty::Complex(_) => true,
            Ty::Untyped(UntypedTy::Int)
            | Ty::Untyped(UntypedTy::Rune)
            | Ty::Untyped(UntypedTy::Float)
            | Ty::Untyped(UntypedTy::Complex) => true,
            _ => false,
        }
    }

    pub fn is_numeric(&self) -> (r: bool)
        ensures
            r == self.spec_is_numeric(),
    {
        match self.underlying() {
            Ty::Int(_) | Ty::Uint(_) | Ty::Float(_) | Ty::Complex(_) => true,
            Ty::Untyped(UntypedTy::Int)
            | Ty::Untyped(UntypedTy::Rune)
            | Ty::Untyped(UntypedTy::Float)
            | Ty::Untyped(UntypedTy::Complex) => true,
            _ => false,
        }
    }

    /// Types whose values the executable representation supports: the
    /// predeclared scalar and string types, and composite types built from
    /// supported types.
    pub open spec fn spec_is_bootstrap_value(self) -> bool
        decreases self,
    {
        match self {
            Ty::Bool | Ty::Int(_) | Ty::Uint(_) | Ty::Float(_) | Ty::Complex(_) | Ty::String => true,
            Ty::Named { underlying, .. } => underlying.spec_is_bootstrap_value(),
            Ty::LocalNamed { underlying, .. } => underlying.spec_is_bootstrap_value(),
            Ty::NamedRef { .. } => true,
            Ty::Pointer(element) => element.spec_is_bootstrap_value(),
            Ty::Slice(element) => element.spec_is_bootstrap_value(),
            Ty::Array(_, element) => element.spec_is_bootstrap_value(),
            Ty::MapTy(key, value) => key.spec_is_bootstrap_value() && value.spec_is_bootstrap_value(),
            Ty::Channel(_, element) => element.spec_is_bootstrap_value(),
            Ty::Struct(_) | Ty::Interface(_) | Ty::Function(_) => true,
            Ty::Unit | Ty::Untyped(_) | Ty::Tuple(_, _) => false,
        }
    }

    pub fn is_bootstrap_value(&self) -> (r: bool)
        ensures
            r == self.spec_is_bootstrap_value(),
        decreases self,
    {
        match self {
            Ty::Bool | Ty::Int(_) | Ty::Uint(_) | Ty::Float(_) | Ty::Complex(_) | Ty::String => true,
            Ty::Named { underlying, .. } => underlying.is_bootstrap_value(),
            Ty::LocalNamed { underlying, .. } => underlying.is_bootstrap_value(),
            Ty::NamedRef { .. } => true,
            Ty::Pointer(element) => element.is_bootstrap_value(),
            Ty::Slice(element) => element.is_bootstrap_value(),
            Ty::Array(_, element) => element.is_bootstrap_value(),
            Ty::MapTy(key, value) => key.is_bootstrap_value() && value.is_bootstrap_value(),
            Ty::Channel(_, element) => element.is_bootstrap_value(),
            Ty::Struct(_) | Ty::Interface(_) | Ty::Function(_) => true,
            Ty::Unit | Ty::Untyped(_) | Ty::Tuple(_, _) => false,
        }
    }

    /// Aggregates compared by value: arrays of comparable elements and
    /// struct types.
    pub open spec fn spec_is_bootstrap_comparable_aggregate(self) -> bool {
        match self.spec_underlying() {
            Ty::Array(_, element) => match element.spec_underlying() {
                Ty::Bool | Ty::Int(_) | Ty::Uint(_) | Ty::Float(_) | Ty::String => true,
                _ => false,
            },
            Ty::Struct(_) => true,
            _ => false,
        }
    }

    pub fn is_bootstrap_comparable_aggregate(&self) -> (r: bool)
        ensures
            r == self.spec_is_bootstrap_comparable_aggregate(),
    {
        match self.underlying() {
            Ty::Array(_, element) => match element.underlying() {
                Ty::Bool | Ty::Int(_) | Ty::Uint(_) | Ty::Float(_) | Ty::String => true,
                _ => false,
            },
            Ty::Struct(_) => true,
            _ => false,
        }
    }
}

} // verus!
