//! Go shift typing keeps the left value and the shift count independently
//! typed.

use vstd::prelude::*;

use crate::bignum::int_spelling;
use crate::constant::{
    int_spelling_value, integer_representable, lemma_integer_representable, numeric_kind, ConstValue, NumericKind,
};
use crate::constant_ops::{
    constant_shift_integer_operand, fold_constant_binary, integer_binary, shift_operand_message, Folded,
};
use crate::expressions::{
    binary_operator_valid, coerce_expr, ensure_bootstrap_value_type, expr_constant, normalize_constant_for_type,
    spec_is_assignable, validate_binary_operator,
};
use crate::hir::{BinaryOp, Diagnostic, DiagnosticKind, Effects, Expr, ExprKind, SourceRef, ValueCategory};
use crate::literals::{lemma_int_spelling_roundtrip, lemma_nat_spelling_digits};
use crate::types::{Ty, UintTy, UntypedTy};

verus! {

/// The expression with its constant value replaced.
pub open spec fn with_constant(e: Expr, value: ConstValue) -> Expr {
    Expr {
        node: e.node,
        kind: match e.kind {
            ExprKind::Constant(_) => ExprKind::Constant(value),
            ExprKind::GlobalConstant(id, _) => ExprKind::GlobalConstant(id, value),
            _ => e.kind,
        },
        ty: e.ty,
        category: e.category,
        effects: e.effects,
        source: e.source,
    }
}

/// Replaces the value of a constant expression.
pub fn replace_constant(expression: &mut Expr, value: ConstValue) -> (r: Result<(), Diagnostic>)
    ensures
        r is Ok <==> old(expression).spec_constant() is Some,
        r is Ok ==> *final(expression) == with_constant(*old(expression), value),
        r is Err ==> *final(expression) == *old(expression),
        r matches Err(d) ==> d.kind == DiagnosticKind::Backend,
{
    match &mut expression.kind {
        ExprKind::Constant(current) => {
            *current = value;
            Ok(())
        },
        ExprKind::GlobalConstant(_, current) => {
            *current = value;
            Ok(())
        },
        _ => Err(Diagnostic::backend("constant shift expression lost its constant value")),
    }
}

/// Why a shift count of type `ty` that is not an untyped constant is
/// refused: it is not an integer, or its values are not executable.
pub open spec fn typed_count_failure(ty: Ty) -> Option<DiagnosticKind> {
    if !ty.spec_is_integer() {
        Some(DiagnosticKind::Semantic)
    } else if !ty.spec_default_typed().spec_is_bootstrap_value() {
        Some(DiagnosticKind::Unsupported)
    } else {
        None
    }
}

/// Why a shift count is refused, if it is: a constant count must be a
/// non-negative integer, and an untyped one must fit `uint`.
pub open spec fn shift_count_failure(count: Expr) -> Option<DiagnosticKind> {
    match count.spec_constant() {
        Some(v) => match v.spec_integer_value() {
            None => Some(DiagnosticKind::Semantic),
            Some(n) => if n < 0 {
                Some(DiagnosticKind::Semantic)
            } else if count.ty is Untyped {
                if n <= 18446744073709551615 {
                    None
                } else {
                    Some(DiagnosticKind::Semantic)
                }
            } else {
                typed_count_failure(count.ty)
            },
        },
        None => typed_count_failure(count.ty),
    }
}

/// An untyped constant count becomes the integer constant of type `uint`.
pub open spec fn untyped_constant_count(count: Expr) -> bool {
    count.spec_constant() is Some && count.ty is Untyped
}

proof fn lemma_spelling_sign(v: int)
    ensures
        int_spelling(v).len() > 0,
        (int_spelling(v)[0] == '-') == (v < 0),
{
    let m: nat = if v < 0 { (-v) as nat } else { v as nat };
    lemma_nat_spelling_digits(m);
    if v >= 0 {
        assert('0' <= int_spelling(v)[0] <= '9');
    }
}

/// Checks a shift count: a constant count must be a non-negative integer,
/// and an untyped one becomes a constant of type `uint`; any other count
/// must be of an integer type.
pub fn prepare_shift_count(count: &mut Expr, source: SourceRef) -> (r: Result<(), Diagnostic>)
    requires
        old(count).wf(),
    ensures
        r is Ok <==> shift_count_failure(*old(count)) is None,
        r matches Err(d) ==> shift_count_failure(*old(count)) == Some(d.kind),
        r matches Err(d) ==> (old(count).spec_constant() matches Some(v) ==> (v.spec_integer_value() is None
            ==> d.message@ == shift_operand_message("shift count"@, v))),
        r matches Err(d) ==> (old(count).spec_constant() matches Some(v) ==> (v.spec_integer_value() matches Some(
            n,
        ) ==> (n < 0 ==> d.message@ == "shift count must be a non-negative integer"@))),
        r is Ok ==> final(count).wf() && final(count).ty.spec_is_integer(),
        r is Ok && !untyped_constant_count(*old(count)) ==> *final(count) == *old(count),
        r is Ok && untyped_constant_count(*old(count)) ==> {
            &&& final(count).ty == Ty::Uint(UintTy::Uint)
            &&& final(count).spec_constant() matches Some(ConstValue::Int(s)) && s@ == int_spelling(
                old(count).spec_constant()->0.spec_integer_value()->0,
            )
            &&& final(count).node == old(count).node
            &&& final(count).source == old(count).source
            &&& final(count).category == old(count).category
            &&& final(count).effects == old(count).effects
        },
{
    let ghost start = *count;
    let constant = match expr_constant(count) {
        Some(value) => Some(constant_shift_integer_operand(value, "shift count", source)),
        None => None,
    };
    match constant {
        Some(checked) => {
            let value = checked?;
            let ghost n = start.spec_constant()->0.spec_integer_value()->0;
            let negative = match &value {
                ConstValue::Int(spelling) => {
                    proof {
                        lemma_spelling_sign(n);
                    }
                    spelling.as_str().unicode_len() > 0 && spelling.as_str().get_char(0) == '-'
                },
                _ => false,
            };
            if negative {
                return Err(Diagnostic::semantic("shift count must be a non-negative integer", source));
            }
            if matches!(count.ty, Ty::Untyped(_)) {
                proof {
                    lemma_int_spelling_roundtrip(n);
                }
                replace_constant(count, value)?;
                count.ty = Ty::Untyped(UntypedTy::Int);
                assert(count.wf());
                coerce_expr(count, &Ty::Uint(UintTy::Uint), source)?;
                return ensure_bootstrap_value_type(&count.ty.default_typed(), source);
            }
        },
        None => {
            if !count.ty.is_integer() {
                return Err(Diagnostic::semantic("shift count must be integer", source));
            }
        },
    }
    if !count.ty.is_integer() {
        return Err(Diagnostic::semantic("shift count must be integer", source));
    }
    ensure_bootstrap_value_type(&count.ty.default_typed(), source)
}

/// The type of a shift before any coercion: an untyped left operand
/// becomes an untyped integer constant.
pub open spec fn shifted_type(left: Expr) -> Ty {
    if left.ty is Untyped {
        Ty::Untyped(UntypedTy::Int)
    } else {
        left.ty
    }
}

/// The effects of a shift that is evaluated at run time: those of both
/// operands, and a possible panic when the count has a signed type.
pub open spec fn shift_effects(left: Expr, right: Expr) -> Effects {
    let both = left.effects.spec_union(right.effects);
    if right.ty.spec_underlying() is Int {
        Effects { may_panic: true, ..both }
    } else {
        both
    }
}

/// The integer constant that an `Int` constant holds.
pub open spec fn int_constant_value(c: ConstValue) -> Option<int> {
    match c {
        ConstValue::Int(s) => Some(int_spelling_value(s@)),
        _ => None,
    }
}

/// The integer that a constant left operand shifts: an untyped constant
/// by its integer value, a typed one by its integer constant.
pub open spec fn shift_left_value(left: Expr) -> Option<int> {
    match left.spec_constant() {
        Some(v) => if left.ty is Untyped {
            v.spec_integer_value()
        } else {
            int_constant_value(v)
        },
        None => None,
    }
}

/// The integer that a constant shift count shifts by.
pub open spec fn shift_count_value(count: Expr) -> Option<int> {
    match count.spec_constant() {
        Some(v) => if count.ty is Untyped {
            v.spec_integer_value()
        } else {
            int_constant_value(v)
        },
        None => None,
    }
}

/// A shift whose operands are both integer constants, with a well-formed
/// count and a left operand of a type that can be shifted, folds: it is
/// refused exactly when folding fails or the result does not fit the
/// operand's type or the expected one.
pub open spec fn constant_shift_outcome(
    op: BinaryOp,
    left: Expr,
    right: Expr,
    expected: Option<Ty>,
    r: Result<Expr, Diagnostic>,
) -> bool {
    (shift_count_failure(right) is None && (left.ty is Untyped || (binary_operator_valid(
        op,
        left.ty.spec_default_typed().spec_underlying(),
    ) && left.ty.spec_default_typed().spec_is_bootstrap_value()))) ==> (shift_left_value(left) matches Some(a)
        ==> (shift_count_value(right) matches Some(b) ==> match integer_binary(op, a, b) {
        Folded::Failure(k) => r matches Err(d) && d.kind == k,
        Folded::Integer(k) => r is Ok <==> integer_representable(k, shifted_type(left)) && (expected matches Some(
            t,
        ) ==> spec_is_assignable(shifted_type(left), t) && integer_representable(k, t)),
        _ => true,
    }))
}

/// The left operand of a shift: an untyped one must be an integer constant
/// and becomes an untyped integer, coerced to the expected type unless the
/// whole shift is constant.
fn shift_left_operand(left: Expr, fully_constant: bool, source: SourceRef, expected: Option<&Ty>) -> (r: Result<
    Expr,
    Diagnostic,
>)
    requires
        left.wf(),
        fully_constant ==> left.spec_constant() is Some,
    ensures
        left.ty is Untyped && left.spec_constant() is None ==> (r matches Err(d) && d.kind
            == DiagnosticKind::Backend),
        left.ty is Untyped ==> (left.spec_constant() matches Some(v) ==> (v.spec_integer_value() is None ==> (
        r matches Err(d) && d.kind == DiagnosticKind::Semantic && d.message@ == shift_operand_message(
            "shifted operand"@,
            v,
        )))),
        !(left.ty is Untyped) ==> r == Ok::<Expr, Diagnostic>(left),
        left.ty is Untyped && fully_constant && (left.spec_constant() matches Some(v)
            && v.spec_integer_value() is Some) ==> r is Ok,
        r matches Ok(l) ==> l.wf() && l.node == left.node && l.source == left.source && l.effects == left.effects,
        r matches Ok(l) ==> (l.spec_constant() is Some <==> left.spec_constant() is Some),
        r matches Ok(l) ==> (left.ty is Untyped ==> match expected {
            Some(t) => if fully_constant {
                l.ty == Ty::Untyped(UntypedTy::Int)
            } else {
                l.ty == *t
            },
            None => l.ty == Ty::Untyped(UntypedTy::Int),
        }),
        r matches Ok(l) ==> (left.ty is Untyped ==> (left.spec_constant() matches Some(v) ==> ((fully_constant
            || expected is None || (expected matches Some(t) && numeric_kind(*t) == NumericKind::Integer))
            ==> int_constant_value(l.spec_constant()->0) == v.spec_integer_value()))),
{
    if !matches!(left.ty, Ty::Untyped(_)) {
        return Ok(left);
    }
    let mut left = left;
    let ghost left0 = left;
    let checked = match expr_constant(&left) {
        Some(value) => constant_shift_integer_operand(value, "shifted operand", source),
        None => {
            return Err(Diagnostic::backend("untyped shift operand was not constant"));
        },
    };
    let value = checked?;
    proof {
        lemma_int_spelling_roundtrip(left0.spec_constant()->0.spec_integer_value()->0);
    }
    replace_constant(&mut left, value)?;
    left.ty = Ty::Untyped(UntypedTy::Int);
    assert(left.wf());
    if let Some(t) = expected {
        if !fully_constant {
            if !t.is_integer() {
                return Err(Diagnostic::semantic("shift operator is invalid for the expected type", source));
            }
            let ghost before = left.spec_constant()->0;
            coerce_expr(&mut left, t, source)?;
            proof {
                let w = left.spec_constant()->0;
                if numeric_kind(*t) == NumericKind::Integer {
                    assert(w matches ConstValue::Int(s) && s@ == int_spelling(
                        left0.spec_constant()->0.spec_integer_value()->0,
                    ));
                }
            }
        }
    }
    Ok(left)
}

/// Folds a shift of two constants into a constant of the left operand's
/// type, coerced to the expected type.
fn fold_shift_constants(
    op: BinaryOp,
    left: &Expr,
    right: &Expr,
    node: u64,
    source: SourceRef,
    expected: Option<&Ty>,
) -> (r: Result<Expr, Diagnostic>)
    requires
        op == BinaryOp::Shl || op == BinaryOp::Shr,
        left.wf(),
        right.wf(),
        left.spec_constant() is Some,
        right.spec_constant() is Some,
        binary_operator_valid(op, left.ty.spec_default_typed().spec_underlying()),
    ensures
        r matches Ok(e) ==> e.wf() && e.node == node && e.source == source && e.spec_constant() is Some,
        r matches Ok(e) ==> match expected {
            Some(t) => e.ty == *t,
            None => e.ty == left.ty,
        },
        r matches Ok(e) ==> (int_constant_value(left.spec_constant()->0) matches Some(a) ==> (int_constant_value(
            right.spec_constant()->0,
        ) matches Some(b) ==> ((expected matches Some(t) ==> numeric_kind(*t) == NumericKind::Integer) ==> (
        integer_binary(op, a, b) matches Folded::Integer(k) && e.spec_constant() matches Some(ConstValue::Int(s))
            && s@ == int_spelling(k))))),
        int_constant_value(left.spec_constant()->0) matches Some(a) ==> (int_constant_value(
            right.spec_constant()->0,
        ) matches Some(b) ==> match integer_binary(op, a, b) {
            Folded::Failure(k) => r matches Err(d) && d.kind == k,
            Folded::Integer(k) => r is Ok <==> integer_representable(k, left.ty) && (expected matches Some(t)
                ==> spec_is_assignable(left.ty, *t) && integer_representable(k, *t)),
            _ => true,
        }),
{
    let left_value = expr_constant(left).unwrap();
    let right_value = expr_constant(right).unwrap();
    let value = match fold_constant_binary(op, left_value, right_value, source)? {
        Some(v) => v,
        None => {
            return Err(Diagnostic::backend("integer constant shift did not fold"));
        },
    };
    let ty = left.ty.clone();
    proof {
        if let Some(k) = match integer_binary(
            op,
            int_constant_value(*left_value)->0,
            int_constant_value(*right_value)->0,
        ) {
            Folded::Integer(k) => Some(k),
            _ => None,
        } {
            lemma_int_spelling_roundtrip(k);
        }
    }
    let ghost folded = value;
    proof {
        if let (Some(a), Some(b)) = (int_constant_value(*left_value), int_constant_value(*right_value)) {
            if let Folded::Integer(k) = integer_binary(op, a, b) {
                lemma_integer_representable(folded, k, left.ty);
            }
        }
    }
    let value = normalize_constant_for_type(&value, &ty, source)?;
    proof {
        if let (Some(a), Some(b)) = (int_constant_value(*left_value), int_constant_value(*right_value)) {
            if let Folded::Integer(k) = integer_binary(op, a, b) {
                assert(numeric_kind(ty) == NumericKind::Integer);
                assert(folded.spec_integer_value() == Some(k));
                if let Some(t) = expected {
                    lemma_integer_representable(value, k, *t);
                }
            }
        }
    }
    let mut result = Expr {
        node,
        kind: ExprKind::Constant(value),
        ty,
        category: ValueCategory::Constant,
        effects: Effects::none(),
        source,
    };
    if let Some(t) = expected {
        coerce_expr(&mut result, t, source)?;
    }
    Ok(result)
}

/// Lowers `left << right` or `left >> right`: the count is checked on its
/// own, an untyped left operand becomes an integer constant that takes the
/// type the context expects, and constant operands fold.
#[verifier::spinoff_prover]
#[verifier::rlimit(90)]
pub fn lower_shift_expression(
    op: BinaryOp,
    left: Expr,
    right: Expr,
    node: u64,
    source: SourceRef,
    expected: Option<&Ty>,
) -> (r: Result<Expr, Diagnostic>)
    requires
        op == BinaryOp::Shl || op == BinaryOp::Shr,
        left.wf(),
        right.wf(),
    ensures
        shift_count_failure(right) matches Some(k) ==> (r matches Err(d) && d.kind == k),
        shift_count_failure(right) is None && left.ty is Untyped && left.spec_constant() is None ==> (r matches Err(
            d,
        ) && d.kind == DiagnosticKind::Backend),
        shift_count_failure(right) is None && left.ty is Untyped ==> (left.spec_constant() matches Some(v) ==> (
        v.spec_integer_value() is None ==> (r matches Err(d) && d.kind == DiagnosticKind::Semantic && d.message@
            == shift_operand_message("shifted operand"@, v)))),
        shift_count_failure(right) is None && !(left.ty is Untyped) && !binary_operator_valid(
            op,
            left.ty.spec_default_typed().spec_underlying(),
        ) ==> (r matches Err(d) && d.kind == DiagnosticKind::Semantic),
        shift_count_failure(right) is None && !(left.ty is Untyped) && !(left.spec_constant() is Some
            && right.spec_constant() is Some) ==> (r is Ok <==> binary_operator_valid(
            op,
            left.ty.spec_underlying(),
        ) && left.ty.spec_is_bootstrap_value() && (expected matches Some(t) ==> spec_is_assignable(left.ty, *t))),
        r matches Ok(e) ==> e.wf() && e.node == node && e.source == source,
        r matches Ok(e) ==> match expected {
            Some(t) => e.ty == *t,
            None => e.ty == shifted_type(left),
        },
        r matches Ok(e) ==> (e.spec_constant() is Some <==> (left.spec_constant() is Some
            && right.spec_constant() is Some)),
        r matches Ok(e) ==> (left.spec_constant() matches Some(ConstValue::Int(a)) ==> (
        right.spec_constant() matches Some(ConstValue::Int(b)) ==> ((expected matches Some(t) ==> numeric_kind(*t)
            == NumericKind::Integer) ==> (integer_binary(op, int_spelling_value(a@), int_spelling_value(b@)) matches Folded::Integer(
            k,
        ) && e.spec_constant() matches Some(ConstValue::Int(s)) && s@ == int_spelling(k))))),
        r matches Ok(e) ==> (expected is None && !(left.spec_constant() is Some && right.spec_constant() is Some)
            ==> (e.kind matches ExprKind::Binary { op: o, .. } && o == op && e.category == ValueCategory::Value
            && e.effects == shift_effects(left, right))),
        constant_shift_outcome(op, left, right, match expected {
            Some(t) => Some(*t),
            None => None,
        }, r),
{
    let mut right = right;
    let ghost right0 = right;
    prepare_shift_count(&mut right, source)?;
    let fully_constant = expr_constant(&left).is_some() && expr_constant(&right).is_some();
    let ghost left0 = left;
    let left = shift_left_operand(left, fully_constant, source, expected)?;
    let operand_ty = left.ty.default_typed();
    validate_binary_operator(op, &operand_ty, source)?;
    ensure_bootstrap_value_type(&operand_ty, source)?;
    if fully_constant {
        proof {
            if let Some(ConstValue::Int(b)) = right0.spec_constant() {
                if untyped_constant_count(right0) {
                    lemma_int_spelling_roundtrip(int_spelling_value(b@));
                }
            }
            if let Some(ConstValue::Int(a)) = left0.spec_constant() {
                lemma_int_spelling_roundtrip(int_spelling_value(a@));
            }
        }
        assert(shift_left_value(left0) is Some && shift_count_value(right0) is Some ==> (int_constant_value(
            left.spec_constant()->0,
        ) == shift_left_value(left0) && int_constant_value(right.spec_constant()->0) == shift_count_value(right0)
            && left.ty == shifted_type(left0))) by {
            if shift_left_value(left0) is Some && shift_count_value(right0) is Some {
                if untyped_constant_count(right0) {
                    lemma_int_spelling_roundtrip(right0.spec_constant()->0.spec_integer_value()->0);
                }
            }
        }
        let folded = fold_shift_constants(op, &left, &right, node, source, expected);
        proof {
            if let (Some(ConstValue::Int(a)), Some(ConstValue::Int(b))) = (left0.spec_constant(), right0.spec_constant()) {
                let x = int_spelling_value(a@);
                let y = int_spelling_value(b@);
                assert(x % 1 == 0 && x / 1 == x && y % 1 == 0 && y / 1 == y);
                assert(shift_count_failure(right0) is None ==> shift_count_value(right0) == Some(y));
                assert(shift_left_value(left0) is Some ==> shift_left_value(left0) == Some(x));
            }
        }
        return folded;
    }
    let mut effects = left.effects.union(right.effects);
    if matches!(right.ty.underlying(), Ty::Int(_)) {
        effects.may_panic = true;
    }
    let ty = left.ty.clone();
    let mut result = Expr {
        node,
        kind: ExprKind::Binary { op, left: Box::new(left), right: Box::new(right) },
        ty,
        category: ValueCategory::Value,
        effects,
        source,
    };
    if let Some(t) = expected {
        coerce_expr(&mut result, t, source)?;
    }
    Ok(result)
}

} // verus!
