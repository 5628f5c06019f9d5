//! Typed semantic expressions, operators and diagnostics.

use vstd::prelude::*;

use crate::constant::ConstValue;
use crate::types::Ty;

verus! {

#[derive(Clone, Copy, Debug, PartialEq, Eq, Structural)]
pub enum BinaryOp {
    Add,
    Sub,
    Mul,
    Div,
    Rem,
    BitAnd,
    BitOr,
    BitXor,
    Shl,
    Shr,
    AndNot,
    Equal,
    NotEqual,
    Less,
    LessEqual,
    Greater,
    GreaterEqual,
    LogicalAnd,
    LogicalOr,
    Min,
    Max,
    Complex,
}

#[derive(Clone, Copy, Debug, PartialEq, Eq, Structural)]
pub enum UnaryOp {
    Positive,
    Negative,
    Not,
    BitNot,
    Real,
    Imag,
}

#[derive(Clone, Copy, Debug, PartialEq, Eq, Structural)]
pub enum AssignOp {
    Assign,
    Add,
    Sub,
    Mul,
    Div,
    Rem,
    BitAnd,
    BitOr,
    BitXor,
    Shl,
    Shr,
    AndNot,
}

/// Runtime operations that lowered code calls.
#[derive(Clone, Copy, Debug, PartialEq, Eq, Structural)]
pub enum Builtin {
    ChannelI64Nil,
    ChannelI64Make,
    ChannelI64Len,
    ChannelI64Cap,
    ChannelI64Send,
    ChannelI64ReceiveValue,
    ChannelI64Receive,
    ChannelI64Close,
    ChannelI64IsNil,
    ChannelI64TrySend,
    ChannelI64TryReceive,
    ChannelGoStringNil,
    ChannelGoStringMake,
    ChannelGoStringLen,
    ChannelGoStringCap,
    ChannelGoStringSend,
    ChannelGoStringReceiveValue,
    ChannelGoStringReceive,
    ChannelGoStringClose,
    ChannelGoStringIsNil,
    ChannelGoStringTrySend,
    ChannelGoStringTryReceive,
    ChannelGoChannelI64Nil,
    ChannelGoChannelI64Make,
    ChannelGoChannelI64Len,
    ChannelGoChannelI64Cap,
    ChannelGoChannelI64Send,
    ChannelGoChannelI64ReceiveValue,
    ChannelGoChannelI64Receive,
    ChannelGoChannelI64Close,
    ChannelGoChannelI64IsNil,
    ChannelGoChannelI64TrySend,
    ChannelGoChannelI64TryReceive,
    MapStringI64Nil,
    MapStringI64Make,
    MapStringI64Get,
    MapStringI64Lookup,
    MapStringI64Delete,
    MapI64GoStringNil,
    MapI64GoStringMake,
    MapI64GoStringGet,
    MapI64GoStringLookup,
    MapI64GoStringDelete,
    MapStringI64Clear,
    MapI64GoStringClear,
    SliceI64Clear,
    SliceGoStringClear,
    PointerI64Get,
    PointerI64Set,
    StringFromRune,
    StringFromSliceU8,
    StringFromSliceRunes,
    StringToSliceRunes,
    SliceU8AppendString,
}

/// What a call expression calls.
#[derive(Clone, Copy, Debug, PartialEq, Eq, Structural)]
pub enum Callee {
    Builtin(Builtin),
}

#[derive(Clone, Copy, Debug, PartialEq, Eq, Structural)]
pub enum ValueCategory {
    Constant,
    Value,
    Place,
}

/// The observable effects that evaluating an expression may have.
#[derive(Clone, Copy, Debug, PartialEq, Eq, Structural)]
pub struct Effects {
    pub may_call: bool,
    pub may_allocate: bool,
    pub may_block: bool,
    pub may_panic: bool,
    pub may_read: bool,
    pub may_write: bool,
}

impl Effects {
    pub open spec fn spec_union(self, other: Effects) -> Effects {
        Effects {
            may_call: self.may_call || other.may_call,
            may_allocate: self.may_allocate || other.may_allocate,
            may_block: self.may_block || other.may_block,
            may_panic: self.may_panic || other.may_panic,
            may_read: self.may_read || other.may_read,
            may_write: self.may_write || other.may_write,
        }
    }

    /// No effect at all.
    pub open spec fn spec_none() -> Effects {
        Effects {
            may_call: false,
            may_allocate: false,
            may_block: false,
            may_panic: false,
            may_read: false,
            may_write: false,
        }
    }

    pub fn none() -> (r: Effects)
        ensures
            !r.may_call && !r.may_allocate && !r.may_block && !r.may_panic && !r.may_read
                && !r.may_write,
            r == Effects::spec_none(),
    {
        Effects {
            may_call: false,
            may_allocate: false,
            may_block: false,
            may_panic: false,
            may_read: false,
            may_write: false,
        }
    }

    /// The effects of evaluating both expressions.
    pub fn union(self, other: Effects) -> (r: Effects)
        ensures
            r == self.spec_union(other),
    {
        Effects {
            may_call: self.may_call || other.may_call,
            may_allocate: self.may_allocate || other.may_allocate,
            may_block: self.may_block || other.may_block,
            may_panic: self.may_panic || other.may_panic,
            may_read: self.may_read || other.may_read,
            may_write: self.may_write || other.may_write,
        }
    }
}

/// The source location that a diagnostic or expression refers to.
/// A node of a function's lowered code: the owning declaration and an index
/// local to it.
#[derive(Clone, Copy, Debug, PartialEq, Eq, Structural)]
pub struct NodeId {
    pub owner: u64,
    pub local: u32,
}

/// A local variable of a function.
#[derive(Clone, Copy, Debug, PartialEq, Eq, Structural)]
pub struct LocalId(pub u32);

/// A local closure of a function.
#[derive(Clone, Copy, Debug, PartialEq, Eq, Structural)]
pub struct ClosureId(pub u32);

/// A type declared inside a function: the owning declaration and an index
/// local to it.
#[derive(Clone, Copy, Debug, PartialEq, Eq, Structural)]
pub struct LocalTypeId {
    pub owner: u64,
    pub local: u32,
}

/// Where a diagnostic or lowered item comes from: a node, or a local
/// variable of a declaration.
#[derive(Clone, Copy, Debug, PartialEq, Eq, Structural)]
pub enum SourceRef {
    Node(NodeId),
    Local(u64, LocalId),
}

#[derive(Debug)]
pub enum ExprKind {
    Constant(ConstValue),
    GlobalConstant(u64, ConstValue),
    Local(u64),
    Binary { op: BinaryOp, left: Box<Expr>, right: Box<Expr> },
    Unary { op: UnaryOp, operand: Box<Expr> },
    Conversion { value: Box<Expr> },
    Call { callee: Callee, args: Vec<Expr> },
    /// The length of an array value, known from its type.
    ArrayLen { array: Box<Expr>, length: u64 },
    /// A `[]uint8` literal of the given bytes.
    SliceLiteralU8(Vec<u8>),
}

/// A typed expression.
#[derive(Debug)]
pub struct Expr {
    pub node: u64,
    pub kind: ExprKind,
    pub ty: Ty,
    pub category: ValueCategory,
    pub effects: Effects,
    pub source: SourceRef,
}

impl Expr {
    /// The constant value of a constant expression.
    pub open spec fn spec_constant(&self) -> Option<ConstValue> {
        match self.kind {
            ExprKind::Constant(v) => Some(v),
            ExprKind::GlobalConstant(_, v) => Some(v),
            _ => None,
        }
    }

    /// The constants held in the expression are well formed.
    pub open spec fn wf(&self) -> bool
        decreases self,
    {
        match self.kind {
            ExprKind::Constant(v) => v.wf(),
            ExprKind::GlobalConstant(_, v) => v.wf(),
            ExprKind::Local(_) => true,
            ExprKind::Binary { left, right, .. } => left.wf() && right.wf(),
            ExprKind::Unary { operand, .. } => operand.wf(),
            ExprKind::Conversion { value } => value.wf(),
            ExprKind::Call { args, .. } => forall|i: int| 0 <= i < args@.len() ==> (#[trigger] args@[i]).wf(),
            ExprKind::ArrayLen { array, .. } => array.wf(),
            ExprKind::SliceLiteralU8(_) => true,
        }
    }
}

/// Where an assignment stores: a local, nowhere (the blank identifier), or
/// through a pointer with the runtime operation that stores.
#[derive(Debug)]
pub enum AssignTargetKind {
    Local(LocalId),
    Discard,
    Pointer { pointer: Expr, set: Builtin },
}

/// The destination of an assignment, with the type it stores; the blank
/// identifier has none.
#[derive(Debug)]
pub struct AssignTarget {
    pub kind: AssignTargetKind,
    pub ty: Option<Ty>,
    pub source: SourceRef,
}

/// What a lowered statement does.
#[derive(Debug)]
pub enum StmtKind {
    Expr(Expr),
    Return(Vec<Expr>),
    Assign { destinations: Vec<AssignTarget>, op: AssignOp, values: Vec<Expr> },
}

/// A lowered statement.
#[derive(Debug)]
pub struct Stmt {
    pub node: u64,
    pub kind: StmtKind,
    pub source: SourceRef,
}

#[derive(Clone, Copy, Debug, PartialEq, Eq, Structural)]
pub enum DiagnosticKind {
    /// The program is not valid Go.
    Semantic,
    /// The program is valid Go that this compiler does not implement.
    Unsupported,
    /// An internal invariant of the compiler was broken.
    Backend,
}

/// The message for a name declared twice in one block.
pub open spec fn redeclared_message(name: Seq<char>) -> Seq<char> {
    name + " redeclared in this block"@
}

/// Where an assigned value goes: a local, or the blank identifier.
#[derive(Clone, Copy, Debug, PartialEq, Eq, Structural)]
pub enum Place {
    Local(LocalId),
    Discard,
}

#[derive(Debug)]
pub struct Diagnostic {
    pub kind: DiagnosticKind,
    pub message: String,
    pub source: Option<SourceRef>,
}

/// `r` failed with a diagnostic of `kind` that carries `message` and points
/// at `source`.
pub open spec fn fails_with<T>(r: Result<T, Diagnostic>, kind: DiagnosticKind, message: Seq<char>, source: SourceRef) -> bool {
    r matches Err(d) && d.kind == kind && d.message@ == message && d.source == Some(source)
}

impl Diagnostic {
    /// The error for a name declared twice in one block.
    pub fn redeclared(name: &str, source: SourceRef) -> (r: Diagnostic)
        ensures
            r.kind == DiagnosticKind::Semantic,
            r.message@ == redeclared_message(name@),
            r.source == Some(source),
    {
        let mut message = String::from_str(name);
        message.append(" redeclared in this block");
        Diagnostic { kind: DiagnosticKind::Semantic, message, source: Some(source) }
    }

    pub fn semantic(message: &str, source: SourceRef) -> (r: Diagnostic)
        ensures
            r.kind == DiagnosticKind::Semantic,
            r.message@ == message@,
            r.source == Some(source),
    {
        Diagnostic {
            kind: DiagnosticKind::Semantic,
            message: String::from_str(message),
            source: Some(source),
        }
    }

    pub fn unsupported(message: &str, source: SourceRef) -> (r: Diagnostic)
        ensures
            r.kind == DiagnosticKind::Unsupported,
            r.message@ == message@,
            r.source == Some(source),
    {
        Diagnostic {
            kind: DiagnosticKind::Unsupported,
            message: String::from_str(message),
            source: Some(source),
        }
    }

    pub fn backend(message: &str) -> (r: Diagnostic)
        ensures
            r.kind == DiagnosticKind::Backend,
            r.message@ == message@,
            r.source is None,
    {
        Diagnostic {
            kind: DiagnosticKind::Backend,
            message: String::from_str(message),
            source: None,
        }
    }
}

} // verus!
