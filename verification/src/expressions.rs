//! Type identity, assignability, operand typing and operator tables.

use vstd::prelude::*;

use crate::constant::{normalized_as, ConstValue};
use crate::hir::{
    AssignOp, BinaryOp, Builtin, Callee, Diagnostic, DiagnosticKind, Effects, Expr, ExprKind, SourceRef,
    ValueCategory,
};
use crate::syntax::Token;
use crate::types::{ChannelDir, ComplexTy, FloatTy, Ty, UntypedTy};

verus! {

pub open spec fn spec_is_defined_type(ty: Ty) -> bool {
    ty is Named || ty is LocalNamed
}

/// Defined (named) types.
pub fn is_defined_type(ty: &Ty) -> (r: bool)
    ensures
        r == spec_is_defined_type(*ty),
{
    matches!(ty, Ty::Named { .. } | Ty::LocalNamed { .. })
}

/// The definition a named type or named-type reference denotes.
pub open spec fn named_definition(ty: Ty) -> Option<u64> {
    match ty {
        Ty::Named { definition, .. } => Some(definition),
        Ty::NamedRef { definition } => Some(definition),
        _ => None,
    }
}

/// Go type identity, where a named type and a reference to the same
/// definition are identical and composite types compare element-wise.
pub open spec fn spec_same_semantic_type(left: Ty, right: Ty) -> bool
    decreases left,
{
    if left == right {
        true
    } else if named_definition(left) is Some && named_definition(right) is Some {
        named_definition(left) == named_definition(right)
    } else {
        match (left, right) {
            (Ty::Pointer(l), Ty::Pointer(r)) => spec_same_semantic_type(*l, *r),
            (Ty::Slice(l), Ty::Slice(r)) => spec_same_semantic_type(*l, *r),
            (Ty::Array(ln, l), Ty::Array(rn, r)) => ln == rn && spec_same_semantic_type(*l, *r),
            (Ty::MapTy(lk, lv), Ty::MapTy(rk, rv)) => spec_same_semantic_type(*lk, *rk)
                && spec_same_semantic_type(*lv, *rv),
            (Ty::Channel(ld, l), Ty::Channel(rd, r)) => ld == rd && spec_same_semantic_type(*l, *r),
            _ => false,
        }
    }
}

pub fn same_semantic_type(left: &Ty, right: &Ty) -> (r: bool)
    ensures
        r == spec_same_semantic_type(*left, *right),
    decreases left,
{
    if left == right {
        return true;
    }
    match (left, right) {
        (
            Ty::Named { definition: l, .. } | Ty::NamedRef { definition: l },
            Ty::Named { definition: r, .. } | Ty::NamedRef { definition: r },
        ) => *l == *r,
        (Ty::Pointer(l), Ty::Pointer(r)) => same_semantic_type(l, r),
        (Ty::Slice(l), Ty::Slice(r)) => same_semantic_type(l, r),
        (Ty::Array(ln, l), Ty::Array(rn, r)) => *ln == *rn && same_semantic_type(l, r),
        (Ty::MapTy(lk, lv), Ty::MapTy(rk, rv)) => same_semantic_type(lk, rk) && same_semantic_type(
            lv,
            rv,
        ),
        (Ty::Channel(ld, l), Ty::Channel(rd, r)) => *ld == *rd && same_semantic_type(l, r),
        _ => false,
    }
}

/// Assignability of an untyped constant kind to a predeclared type.
pub open spec fn untyped_assignable(actual: Ty, expected: Ty) -> bool {
    match (actual, expected) {
        (Ty::Untyped(UntypedTy::Bool), Ty::Bool) => true,
        (Ty::Untyped(UntypedTy::Int), Ty::Untyped(UntypedTy::Rune)) => true,
        (Ty::Untyped(UntypedTy::Int), Ty::Untyped(UntypedTy::Float)) => true,
        (Ty::Untyped(UntypedTy::Int), Ty::Untyped(UntypedTy::Complex)) => true,
        (Ty::Untyped(UntypedTy::Rune), Ty::Untyped(UntypedTy::Float)) => true,
        (Ty::Untyped(UntypedTy::Rune), Ty::Untyped(UntypedTy::Complex)) => true,
        (Ty::Untyped(UntypedTy::Float), Ty::Untyped(UntypedTy::Complex)) => true,
        (Ty::Untyped(UntypedTy::Int), Ty::Int(_)) => true,
        (Ty::Untyped(UntypedTy::Int), Ty::Uint(_)) => true,
        (Ty::Untyped(UntypedTy::Int), Ty::Float(_)) => true,
        (Ty::Untyped(UntypedTy::Int), Ty::Complex(_)) => true,
        (Ty::Untyped(UntypedTy::Rune), Ty::Int(_)) => true,
        (Ty::Untyped(UntypedTy::Rune), Ty::Uint(_)) => true,
        (Ty::Untyped(UntypedTy::Rune), Ty::Float(_)) => true,
        (Ty::Untyped(UntypedTy::Rune), Ty::Complex(_)) => true,
        (Ty::Untyped(UntypedTy::Float), Ty::Int(_)) => true,
        (Ty::Untyped(UntypedTy::Float), Ty::Uint(_)) => true,
        (Ty::Untyped(UntypedTy::Float), Ty::Float(_)) => true,
        (Ty::Untyped(UntypedTy::Float), Ty::Complex(_)) => true,
        (Ty::Untyped(UntypedTy::Complex), Ty::Complex(_)) => true,
        (Ty::Untyped(UntypedTy::String), Ty::String) => true,
        _ => false,
    }
}

/// Go assignability of a value of type `actual` to a variable of type
/// `expected`.
pub open spec fn spec_is_assignable(actual: Ty, expected: Ty) -> bool
    decreases expected,
{
    if spec_same_semantic_type(actual, expected) {
        true
    } else if actual.spec_underlying() == expected.spec_underlying() && (!spec_is_defined_type(actual)
        || !spec_is_defined_type(expected)) {
        true
    } else if actual is Untyped && expected is Named {
        spec_is_assignable(actual, *expected->Named_underlying)
    } else if actual is Untyped && expected is LocalNamed {
        spec_is_assignable(actual, *expected->LocalNamed_underlying)
    } else if actual.spec_underlying() is Channel && expected.spec_underlying() is Channel {
        &&& actual.spec_underlying()->Channel_1 == expected.spec_underlying()->Channel_1
        &&& (actual.spec_underlying()->Channel_0 == expected.spec_underlying()->Channel_0
            || actual.spec_underlying()->Channel_0 == ChannelDir::SendReceive)
    } else {
        untyped_assignable(actual, expected)
    }
}

pub fn is_assignable(actual: &Ty, expected: &Ty) -> (r: bool)
    ensures
        r == spec_is_assignable(*actual, *expected),
    decreases expected,
{
    if same_semantic_type(actual, expected) {
        return true;
    }
    if actual.underlying() == expected.underlying() && (!is_defined_type(actual)
        || !is_defined_type(expected)) {
        return true;
    }
    if let Ty::Named { underlying, .. } | Ty::LocalNamed { underlying, .. } = expected {
        if matches!(actual, Ty::Untyped(_)) {
            return is_assignable(actual, underlying);
        }
    }
    if let (Ty::Channel(actual_direction, actual_element), Ty::Channel(expected_direction, expected_element)) = (
        actual.underlying(),
        expected.underlying(),
    ) {
        return **actual_element == **expected_element && (*actual_direction == *expected_direction
            || *actual_direction == ChannelDir::SendReceive);
    }
    match (actual, expected) {
        (Ty::Untyped(UntypedTy::Bool), Ty::Bool) => true,
        (
            Ty::Untyped(UntypedTy::Int),
            Ty::Untyped(UntypedTy::Rune)
            | Ty::Untyped(UntypedTy::Float)
            | Ty::Untyped(UntypedTy::Complex)
            | Ty::Int(_)
            | Ty::Uint(_)
            | Ty::Float(_)
            | Ty::Complex(_),
        ) => true,
        (
            Ty::Untyped(UntypedTy::Rune),
            Ty::Untyped(UntypedTy::Float)
            | Ty::Untyped(UntypedTy::Complex)
            | Ty::Int(_)
            | Ty::Uint(_)
            | Ty::Float(_)
            | Ty::Complex(_),
        ) => true,
        (
            Ty::Untyped(UntypedTy::Float),
            Ty::Untyped(UntypedTy::Complex) | Ty::Int(_) | Ty::Uint(_) | Ty::Float(_) | Ty::Complex(_),
        ) => true,
        (Ty::Untyped(UntypedTy::Complex), Ty::Complex(_)) => true,
        (Ty::Untyped(UntypedTy::String), Ty::String) => true,
        _ => false,
    }
}

/// The operand type that a binary operation on the two types uses, taken
/// to its default type.
pub open spec fn spec_common_operand_type(left: Ty, right: Ty) -> Option<Ty> {
    if left == right {
        Some(left.spec_default_typed())
    } else if spec_is_assignable(left, right) {
        Some(right.spec_default_typed())
    } else if spec_is_assignable(right, left) {
        Some(left.spec_default_typed())
    } else {
        None
    }
}

pub fn common_operand_type(left: &Ty, right: &Ty) -> (r: Option<Ty>)
    ensures
        r == spec_common_operand_type(*left, *right),
{
    if left == right {
        return Some(left.default_typed());
    }
    if is_assignable(left, right) {
        return Some(right.default_typed());
    }
    if is_assignable(right, left) {
        return Some(left.default_typed());
    }
    None
}

/// The operand type that a binary operation on the two types uses, kept
/// untyped when both operands are untyped.
pub open spec fn spec_exact_common_operand_type(left: Ty, right: Ty) -> Option<Ty> {
    if left == right {
        Some(left)
    } else if spec_is_assignable(left, right) {
        Some(right)
    } else if spec_is_assignable(right, left) {
        Some(left)
    } else {
        None
    }
}

pub fn exact_common_operand_type(left: &Ty, right: &Ty) -> (r: Option<Ty>)
    ensures
        r == spec_exact_common_operand_type(*left, *right),
{
    if left == right {
        return Some(left.clone());
    }
    if is_assignable(left, right) {
        return Some(right.clone());
    }
    if is_assignable(right, left) {
        return Some(left.clone());
    }
    None
}

pub fn is_bool(ty: &Ty) -> (r: bool)
    ensures
        r == (ty.spec_underlying() == Ty::Bool || ty.spec_underlying() == Ty::Untyped(UntypedTy::Bool)),
{
    matches!(ty.underlying(), Ty::Bool | Ty::Untyped(UntypedTy::Bool))
}

/// Rejects, as unsupported, types whose values are not executable.
pub fn ensure_bootstrap_value_type(ty: &Ty, source: SourceRef) -> (r: Result<(), Diagnostic>)
    ensures
        r is Ok <==> ty.spec_is_bootstrap_value(),
        r matches Err(d) ==> d.kind == DiagnosticKind::Unsupported,
{
    if ty.is_bootstrap_value() {
        Ok(())
    } else {
        Err(Diagnostic::unsupported("values of this type are not yet supported", source))
    }
}

/// The operand types that each executable binary operator accepts.
pub open spec fn binary_operator_valid(op: BinaryOp, ty: Ty) -> bool {
    match op {
        BinaryOp::LogicalAnd | BinaryOp::LogicalOr => ty == Ty::Bool,
        BinaryOp::Equal | BinaryOp::NotEqual => {
            ||| ty is Bool || ty is Int || ty is Uint || ty is Float || ty is String
            ||| ty == Ty::Complex(ComplexTy::Complex128)
            ||| ty.spec_is_bootstrap_comparable_aggregate()
        },
        BinaryOp::Less | BinaryOp::LessEqual | BinaryOp::Greater | BinaryOp::GreaterEqual => ty is Int
            || ty is Uint || ty is Float || ty is String,
        BinaryOp::Add => ty is Int || ty is Uint || ty == Ty::Float(FloatTy::Float64) || ty
            == Ty::Complex(ComplexTy::Complex128) || ty is String,
        BinaryOp::Sub | BinaryOp::Mul | BinaryOp::Div => ty is Int || ty is Uint || ty == Ty::Float(
            FloatTy::Float64,
        ) || ty == Ty::Complex(ComplexTy::Complex128),
        BinaryOp::Min | BinaryOp::Max => ty is Int || ty is Uint || ty is Float,
        BinaryOp::Complex => ty == Ty::Float(FloatTy::Float64),
        BinaryOp::BitAnd | BinaryOp::BitOr | BinaryOp::BitXor | BinaryOp::AndNot | BinaryOp::Rem
        | BinaryOp::Shl | BinaryOp::Shr => ty is Int || ty is Uint,
    }
}

/// Checks that a binary operator applies to operands of a type.
pub fn validate_binary_operator(op: BinaryOp, ty: &Ty, source: SourceRef) -> (r: Result<(), Diagnostic>)
    ensures
        r is Ok <==> binary_operator_valid(op, ty.spec_underlying()),
        r matches Err(d) ==> d.kind == DiagnosticKind::Semantic,
{
    let ty = ty.underlying();
    let valid = match op {
        BinaryOp::LogicalAnd | BinaryOp::LogicalOr => *ty == Ty::Bool,
        BinaryOp::Equal | BinaryOp::NotEqual => {
            matches!(
                ty,
                Ty::Bool | Ty::Int(_) | Ty::Uint(_) | Ty::Float(_) | Ty::Complex(ComplexTy::Complex128)
                    | Ty::String
            ) || ty.is_bootstrap_comparable_aggregate()
        },
        BinaryOp::Less | BinaryOp::LessEqual | BinaryOp::Greater | BinaryOp::GreaterEqual => {
            matches!(ty, Ty::Int(_) | Ty::Uint(_) | Ty::Float(_) | Ty::String)
        },
        BinaryOp::Add => matches!(
            ty,
            Ty::Int(_) | Ty::Uint(_) | Ty::Float(FloatTy::Float64) | Ty::Complex(ComplexTy::Complex128)
                | Ty::String
        ),
        BinaryOp::Sub | BinaryOp::Mul | BinaryOp::Div => matches!(
            ty,
            Ty::Int(_) | Ty::Uint(_) | Ty::Float(FloatTy::Float64) | Ty::Complex(ComplexTy::Complex128)
        ),
        BinaryOp::Min | BinaryOp::Max => matches!(ty, Ty::Int(_) | Ty::Uint(_) | Ty::Float(_)),
        BinaryOp::Complex => *ty == Ty::Float(FloatTy::Float64),
        BinaryOp::BitAnd | BinaryOp::BitOr | BinaryOp::BitXor | BinaryOp::AndNot => matches!(
            ty,
            Ty::Int(_) | Ty::Uint(_)
        ),
        BinaryOp::Rem | BinaryOp::Shl | BinaryOp::Shr => matches!(ty, Ty::Int(_) | Ty::Uint(_)),
    };
    if valid {
        Ok(())
    } else {
        Err(Diagnostic::semantic("operator is invalid for the operand type", source))
    }
}

/// The binary operator that a compound assignment applies.
pub open spec fn spec_assignment_binary_op(op: AssignOp) -> BinaryOp {
    match op {
        AssignOp::Assign | AssignOp::Add => BinaryOp::Add,
        AssignOp::Sub => BinaryOp::Sub,
        AssignOp::Mul => BinaryOp::Mul,
        AssignOp::Div => BinaryOp::Div,
        AssignOp::Rem => BinaryOp::Rem,
        AssignOp::BitAnd => BinaryOp::BitAnd,
        AssignOp::BitOr => BinaryOp::BitOr,
        AssignOp::BitXor => BinaryOp::BitXor,
        AssignOp::Shl => BinaryOp::Shl,
        AssignOp::Shr => BinaryOp::Shr,
        AssignOp::AndNot => BinaryOp::AndNot,
    }
}

pub fn assignment_binary_op(op: AssignOp) -> (r: BinaryOp)
    ensures
        r == spec_assignment_binary_op(op),
{
    match op {
        AssignOp::Assign | AssignOp::Add => BinaryOp::Add,
        AssignOp::Sub => BinaryOp::Sub,
        AssignOp::Mul => BinaryOp::Mul,
        AssignOp::Div => BinaryOp::Div,
        AssignOp::Rem => BinaryOp::Rem,
        AssignOp::BitAnd => BinaryOp::BitAnd,
        AssignOp::BitOr => BinaryOp::BitOr,
        AssignOp::BitXor => BinaryOp::BitXor,
        AssignOp::Shl => BinaryOp::Shl,
        AssignOp::Shr => BinaryOp::Shr,
        AssignOp::AndNot => BinaryOp::AndNot,
    }
}

/// The binary operator that a binary-operator token spells.
pub open spec fn spec_lower_binary_op(token: Token) -> Option<BinaryOp> {
    match token {
        Token::ADD => Some(BinaryOp::Add),
        Token::SUB => Some(BinaryOp::Sub),
        Token::MUL => Some(BinaryOp::Mul),
        Token::QUO => Some(BinaryOp::Div),
        Token::REM => Some(BinaryOp::Rem),
        Token::AND => Some(BinaryOp::BitAnd),
        Token::OR => Some(BinaryOp::BitOr),
        Token::XOR => Some(BinaryOp::BitXor),
        Token::SHL => Some(BinaryOp::Shl),
        Token::SHR => Some(BinaryOp::Shr),
        Token::AND_NOT => Some(BinaryOp::AndNot),
        Token::EQL => Some(BinaryOp::Equal),
        Token::NEQ => Some(BinaryOp::NotEqual),
        Token::LSS => Some(BinaryOp::Less),
        Token::LEQ => Some(BinaryOp::LessEqual),
        Token::GTR => Some(BinaryOp::Greater),
        Token::GEQ => Some(BinaryOp::GreaterEqual),
        Token::LAND => Some(BinaryOp::LogicalAnd),
        Token::LOR => Some(BinaryOp::LogicalOr),
        _ => None,
    }
}

pub fn lower_binary_op(token: Token) -> (r: Option<BinaryOp>)
    ensures
        r == spec_lower_binary_op(token),
{
    match token {
        Token::ADD => Some(BinaryOp::Add),
        Token::SUB => Some(BinaryOp::Sub),
        Token::MUL => Some(BinaryOp::Mul),
        Token::QUO => Some(BinaryOp::Div),
        Token::REM => Some(BinaryOp::Rem),
        Token::AND => Some(BinaryOp::BitAnd),
        Token::OR => Some(BinaryOp::BitOr),
        Token::XOR => Some(BinaryOp::BitXor),
        Token::SHL => Some(BinaryOp::Shl),
        Token::SHR => Some(BinaryOp::Shr),
        Token::AND_NOT => Some(BinaryOp::AndNot),
        Token::EQL => Some(BinaryOp::Equal),
        Token::NEQ => Some(BinaryOp::NotEqual),
        Token::LSS => Some(BinaryOp::Less),
        Token::LEQ => Some(BinaryOp::LessEqual),
        Token::GTR => Some(BinaryOp::Greater),
        Token::GEQ => Some(BinaryOp::GreaterEqual),
        Token::LAND => Some(BinaryOp::LogicalAnd),
        Token::LOR => Some(BinaryOp::LogicalOr),
        _ => None,
    }
}


/// The constant value of a constant expression.
pub fn expr_constant(expr: &Expr) -> (r: Option<&ConstValue>)
    ensures
        r is None <==> expr.spec_constant() is None,
        r matches Some(v) ==> expr.spec_constant() == Some(*v),
{
    match &expr.kind {
        ExprKind::Constant(value) | ExprKind::GlobalConstant(_, value) => Some(value),
        _ => None,
    }
}

/// The constant in the representation of `ty`, or an error when `ty`
/// cannot represent it.
pub fn normalize_constant_for_type(value: &ConstValue, ty: &Ty, source: SourceRef) -> (r: Result<
    ConstValue,
    Diagnostic,
>)
    requires
        value.wf(),
    ensures
        r is Ok <==> value.spec_representable(*ty),
        r matches Ok(v) ==> v.wf() && normalized_as(*value, *ty, v),
        r matches Err(d) ==> d.kind == DiagnosticKind::Semantic,
{
    if !value.is_representable_as(ty) {
        return Err(Diagnostic::semantic("constant result is not representable by the type", source));
    }
    Ok(value.normalized_for(ty))
}

/// A coercion to `expected` wraps a value in an explicit conversion when
/// the types differ but share a representation.
pub open spec fn representation_preserving(actual: Ty, expected: Ty) -> bool {
    &&& actual != expected
    &&& {
        ||| actual.spec_underlying() == expected.spec_underlying()
        ||| (actual.spec_underlying() is Channel && expected.spec_underlying() is Channel
            && actual.spec_underlying()->Channel_1 == expected.spec_underlying()->Channel_1)
    }
}

/// An untyped shift whose left operand takes the integer type it is
/// coerced to.
pub open spec fn untyped_shift_into(e: Expr, expected: Ty) -> bool {
    &&& e.ty is Untyped
    &&& expected.spec_is_integer()
    &&& e.kind matches ExprKind::Binary { op, .. } && (op == BinaryOp::Shl || op == BinaryOp::Shr)
}

/// A value coerced to `expected` as a whole: it takes the expected type,
/// wrapped in an explicit conversion where the change of type preserves the
/// representation, and keeps everything else.
pub open spec fn plainly_coerced(original: Expr, expected: Ty, result: Expr) -> bool {
    &&& result.ty == expected
    &&& result.node == original.node
    &&& result.source == original.source
    &&& result.category == original.category
    &&& result.effects == original.effects
    &&& if representation_preserving(original.ty, expected) {
        result.kind == ExprKind::Conversion { value: Box::new(original) }
    } else {
        result.kind == original.kind
    }
}

/// `e` calls the runtime operation `builtin` on `args`, with the given type,
/// node, source and effects.
pub open spec fn builtin_call(
    e: Expr,
    builtin: Builtin,
    args: Seq<Expr>,
    ty: Ty,
    node: u64,
    source: SourceRef,
    effects: Effects,
) -> bool {
    &&& (e.kind matches ExprKind::Call { callee, args: a } && callee == Callee::Builtin(builtin) && a@ == args)
    &&& e.ty == ty
    &&& e.node == node
    &&& e.source == source
    &&& e.category == ValueCategory::Value
    &&& e.effects == effects
}

/// `c` is `original` coerced to `ty`: it keeps the node, source, category
/// and effects of the original.
pub open spec fn coerced_from(c: Expr, original: Expr, ty: Ty) -> bool {
    &&& c.wf()
    &&& c.ty == ty
    &&& c.node == original.node
    &&& c.source == original.source
    &&& c.category == original.category
    &&& c.effects == original.effects
}

/// The arguments of a call, seen through a conversion that wraps it.
pub open spec fn call_args(e: Expr) -> Seq<Expr> {
    match e.kind {
        ExprKind::Call { args, .. } => args@,
        ExprKind::Conversion { value } => match value.kind {
            ExprKind::Call { args, .. } => args@,
            _ => Seq::empty(),
        },
        _ => Seq::empty(),
    }
}

/// `e` is such a call, coerced to the type the context expects when it
/// expects one.
pub open spec fn expected_builtin_call(
    e: Expr,
    builtin: Builtin,
    args: Seq<Expr>,
    ty: Ty,
    node: u64,
    source: SourceRef,
    effects: Effects,
    expected: Option<Ty>,
) -> bool {
    match expected {
        None => builtin_call(e, builtin, args, ty, node, source, effects),
        Some(t) => {
            &&& e.ty == t
            &&& e.node == node
            &&& e.source == source
            &&& e.category == ValueCategory::Value
            &&& e.effects == effects
            &&& if representation_preserving(ty, t) {
                e.kind matches ExprKind::Conversion { value } && builtin_call(
                    *value,
                    builtin,
                    args,
                    ty,
                    node,
                    source,
                    effects,
                )
            } else {
                e.kind matches ExprKind::Call { callee, args: a } && callee == Callee::Builtin(builtin) && a@
                    == args
            }
        },
    }
}

/// Whether `coerce_expr` accepts the expression for `expected`.
pub open spec fn coercible(e: Expr, expected: Ty) -> bool
    decreases e,
{
    &&& spec_is_assignable(e.ty, expected)
    &&& (e.spec_constant() matches Some(v) ==> v.spec_representable(expected))
    &&& (untyped_shift_into(e, expected) ==> (e.kind matches ExprKind::Binary { left, .. }
        && coercible(*left, expected)))
}

/// Coerces an expression to the type it is used at: the value is
/// normalized for constants, an untyped shift's left operand takes the
/// integer type, and a representation-preserving change of type becomes an
/// explicit conversion.
pub fn coerce_expr(expr: &mut Expr, expected: &Ty, source: SourceRef) -> (r: Result<(), Diagnostic>)
    requires
        old(expr).wf(),
    ensures
        r is Ok <==> coercible(*old(expr), *expected),
        r matches Err(d) ==> d.kind == DiagnosticKind::Semantic,
        r is Err ==> *final(expr) == *old(expr),
        r is Ok ==> (old(expr).kind matches ExprKind::Constant(v) ==> (final(expr).kind matches ExprKind::Constant(w)
            && normalized_as(v, *expected, w))),
        r is Ok ==> (old(expr).kind matches ExprKind::GlobalConstant(id, v) ==> (final(expr).kind matches ExprKind::GlobalConstant(
            id2,
            w,
        ) && id2 == id && normalized_as(v, *expected, w))),
        r is Ok ==> final(expr).ty == *expected,
        r is Ok ==> final(expr).wf(),
        r is Ok ==> final(expr).node == old(expr).node,
        r is Ok ==> final(expr).source == old(expr).source,
        r is Ok ==> final(expr).category == old(expr).category,
        r is Ok ==> final(expr).effects == old(expr).effects,
        r is Ok ==> (old(expr).spec_constant() matches Some(v) ==> (final(expr).spec_constant() matches Some(
            w,
        ) && normalized_as(v, *expected, w))),
        r is Ok ==> (old(expr).spec_constant() is None && representation_preserving(
            old(expr).ty,
            *expected,
        ) ==> (final(expr).kind matches ExprKind::Conversion { value } && value.ty == old(expr).ty)),
        r is Ok ==> (old(expr).spec_constant() is None && !representation_preserving(
            old(expr).ty,
            *expected,
        ) ==> (old(expr).kind is Local <==> final(expr).kind is Local) && (old(expr).kind is Binary
            <==> final(expr).kind is Binary) && (old(expr).kind is Unary <==> final(expr).kind is Unary)
            && (old(expr).kind is Conversion <==> final(expr).kind is Conversion)),
        r is Ok ==> (old(expr).spec_constant() is None && !(old(expr).kind is Binary) ==> plainly_coerced(
            *old(expr),
            *expected,
            *final(expr),
        )),
    decreases *old(expr),
{
    if !is_assignable(&expr.ty, expected) {
        return Err(Diagnostic::semantic("value is not assignable to the expected type", source));
    }
    let ghost start = *expr;
    match &mut expr.kind {
        ExprKind::Constant(value) => {
            let normalized = normalize_constant_for_type(value, expected, source)?;
            *value = normalized;
        },
        ExprKind::GlobalConstant(_, value) => {
            let normalized = normalize_constant_for_type(value, expected, source)?;
            *value = normalized;
        },
        _ => {},
    }
    let ghost after_constant = *expr;
    assert(expr.wf());
    let untyped = matches!(expr.ty, Ty::Untyped(_));
    if untyped && expected.is_integer() {
        if let ExprKind::Binary { op, left, .. } = &mut expr.kind {
            if *op == BinaryOp::Shl || *op == BinaryOp::Shr {
                coerce_expr(&mut **left, expected, source)?;
            }
        }
    }
    assert(expr.wf());
    let wraps = expr.ty != *expected && (expr.ty.underlying() == expected.underlying() || match (
        expr.ty.underlying(),
        expected.underlying(),
    ) {
        (Ty::Channel(_, actual), Ty::Channel(_, wanted)) => **actual == **wanted,
        _ => false,
    });
    let constant = matches!(expr.kind, ExprKind::Constant(_) | ExprKind::GlobalConstant(_, _));
    if wraps && !constant {
        let placeholder = Expr {
            node: expr.node,
            kind: ExprKind::Local(0),
            ty: Ty::Unit,
            category: expr.category,
            effects: expr.effects,
            source: expr.source,
        };
        let mut value = placeholder;
        core::mem::swap(expr, &mut value);
        assert(value.wf());
        let node = value.node;
        let category = value.category;
        let effects = value.effects;
        let value_source = value.source;
        *expr = Expr {
            node,
            kind: ExprKind::Conversion { value: Box::new(value) },
            ty: expected.clone(),
            category,
            effects,
            source: value_source,
        };
    } else {
        let ghost before = *expr;
        expr.ty = expected.clone();
        assert(expr.kind == before.kind);
        assert(expr.wf());
    }
    Ok(())
}

/// A call of a runtime operation, coerced to the type the context expects
/// when it expects one.
pub fn finish_builtin_call(
    builtin: Builtin,
    args: Vec<Expr>,
    ty: Ty,
    node: u64,
    source: SourceRef,
    effects: Effects,
    expected: Option<&Ty>,
) -> (r: Result<Expr, Diagnostic>)
    requires
        forall|i: int| 0 <= i < args@.len() ==> (#[trigger] args@[i]).wf(),
    ensures
        r is Ok <==> (expected matches Some(t) ==> spec_is_assignable(ty, *t)),
        r matches Err(d) ==> d.kind == DiagnosticKind::Semantic,
        r matches Ok(e) ==> e.wf() && expected_builtin_call(
            e,
            builtin,
            args@,
            ty,
            node,
            source,
            effects,
            match expected {
                Some(t) => Some(*t),
                None => None,
            },
        ),
{
    let ghost arguments = args@;
    let mut result = Expr {
        node,
        kind: ExprKind::Call { callee: Callee::Builtin(builtin), args },
        ty,
        category: ValueCategory::Value,
        effects,
        source,
    };
    assert(result.wf());
    if let Some(t) = expected {
        let ghost call = result;
        coerce_expr(&mut result, t, source)?;
        assert(plainly_coerced(call, *t, result));
    }
    Ok(result)
}

/// The expression coerced to the default type of its type.
pub fn default_expr_type(expr: Expr, source: SourceRef) -> (r: Result<Expr, Diagnostic>)
    requires
        expr.wf(),
    ensures
        r is Ok <==> expr.ty.spec_default_typed().spec_is_bootstrap_value() && coercible(
            expr,
            expr.ty.spec_default_typed(),
        ),
        r matches Ok(e) ==> e.ty == expr.ty.spec_default_typed() && e.wf(),
{
    let mut expr = expr;
    let ty = expr.ty.default_typed();
    ensure_bootstrap_value_type(&ty, source)?;
    coerce_expr(&mut expr, &ty, source)?;
    Ok(expr)
}

} // verus!
